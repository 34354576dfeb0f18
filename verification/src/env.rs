//! The environment: a chain of binding frames implementing lexical scoping
//! with parent delegation, held as an arena indexed by frame number.

use vstd::prelude::*;
use vstd::hash_map::StringHashMap;
use crate::node::{Node, NodeS, node_view};

verus! {

/// The model of one binding frame.
#[verifier::ext_equal]
pub struct FrameS {
    pub parent: Option<int>,
    pub data: Map<Seq<char>, NodeS>,
}

/// One binding frame: a mapping from symbol name to value (keys unique, last
/// write wins) and the arena index of the parent frame, `None` for the root.
pub struct Frame {
    pub parent: Option<usize>,
    pub data: StringHashMap<Node>,
}

impl View for Frame {
    type V = FrameS;

    open spec fn view(&self) -> FrameS {
        FrameS {
            parent: match self.parent {
                Some(p) => Some(p as int),
                None => None,
            },
            data: self.data@.map_values(|n: Node| node_view(n)),
        }
    }
}

/// An arena of frames. Frame 0 is the root and lives as long as the
/// interpreter; a frame's parent always has a smaller index, so parent links
/// only ever point outward and no cycles are possible. A call frame is pushed
/// at function-application time and popped when that application returns.
pub struct Environment {
    pub frames: Vec<Frame>,
}

impl View for Environment {
    type V = Seq<FrameS>;

    open spec fn view(&self) -> Seq<FrameS> {
        self.frames@.map(|i: int, f: Frame| f@)
    }
}

/// Well-formedness: a root frame without parent, and every parent link
/// pointing to a strictly smaller index.
pub open spec fn env_wf(m: Seq<FrameS>) -> bool {
    &&& m.len() >= 1
    &&& m[0].parent is None
    &&& forall|i: int|
        0 <= i < m.len() ==> (#[trigger] m[i].parent matches Some(p) ==> 0 <= p < i)
}

/// Chained lookup: the innermost frame first, then its parent, outward until
/// the root; the first match wins.
pub open spec fn spec_lookup(m: Seq<FrameS>, cur: int, key: Seq<char>) -> Option<NodeS>
    decreases cur,
{
    if cur < 0 || cur >= m.len() {
        None
    } else if m[cur].data.dom().contains(key) {
        Some(m[cur].data[key])
    } else {
        match m[cur].parent {
            Some(p) => if 0 <= p < cur {
                spec_lookup(m, p, key)
            } else {
                None
            },
            None => None,
        }
    }
}

/// Binding a name in one frame, leaving every other frame unchanged.
pub open spec fn env_bind(m: Seq<FrameS>, cur: int, key: Seq<char>, v: NodeS) -> Seq<FrameS> {
    m.update(cur, FrameS { parent: m[cur].parent, data: m[cur].data.insert(key, v) })
}

impl Environment {
    /// A fresh environment holding only an empty root frame.
    pub fn new() -> (r: Self)
        ensures
            r@.len() == 1,
            r@[0].parent is None,
            r@[0].data == Map::<Seq<char>, NodeS>::empty(),
            env_wf(r@),
    {
        let mut frames: Vec<Frame> = Vec::new();
        frames.push(Frame { parent: None, data: StringHashMap::new() });
        let r = Environment { frames };
        proof {
            assert(r@[0].data =~= Map::<Seq<char>, NodeS>::empty());
        }
        r
    }

    /// Walks the chain from `cur` outward and returns a copy of the first
    /// binding found for `key`.
    pub fn get(&self, cur: usize, key: &String) -> (r: Option<Node>)
        requires
            env_wf(self@),
            cur < self@.len(),
        ensures
            match spec_lookup(self@, cur as int, key@) {
                Some(v) => r matches Some(n) && node_view(n) == v,
                None => r is None,
            },
    {
        let mut c = cur;
        loop
            invariant
                env_wf(self@),
                c < self@.len(),
                spec_lookup(self@, c as int, key@) == spec_lookup(self@, cur as int, key@),
            decreases c,
        {
            match self.frames[c].data.get(key.as_str()) {
                Some(n) => {
                    return Some(n.deep_clone());
                },
                None => {},
            }
            match self.frames[c].parent {
                Some(p) => {
                    c = p;
                },
                None => {
                    return None;
                },
            }
        }
    }

    /// Binds `key` to `value` in frame `cur`; an existing binding for the
    /// same name in that frame is overwritten.
    pub fn insert(&mut self, cur: usize, key: String, value: Node)
        requires
            env_wf(old(self)@),
            cur < old(self)@.len(),
        ensures
            final(self)@ == env_bind(old(self)@, cur as int, key@, node_view(value)),
            env_wf(final(self)@),
            final(self)@.len() == old(self)@.len(),
    {
        let ghost m0 = self@;
        let mut fr = self.frames.remove(cur);
        let ghost frv = fr@;
        fr.data.insert(key, value);
        proof {
            assert(fr@.data =~= frv.data.insert(key@, node_view(value)));
        }
        self.frames.insert(cur, fr);
        proof {
            assert(self@ =~= env_bind(m0, cur as int, key@, node_view(value)));
        }
    }

    /// Pushes a fresh, empty call frame whose parent is `parent`.
    pub fn push_frame(&mut self, parent: usize)
        requires
            env_wf(old(self)@),
            parent < old(self)@.len(),
        ensures
            final(self)@ == old(self)@.push(
                FrameS { parent: Some(parent as int), data: Map::empty() },
            ),
            env_wf(final(self)@),
            final(self)@.len() == old(self)@.len() + 1,
    {
        self.frames.push(Frame { parent: Some(parent), data: StringHashMap::new() });
        proof {
            assert(self@ =~~= old(self)@.push(
                FrameS { parent: Some(parent as int), data: Map::empty() },
            ));
        }
    }

    /// Discards the innermost call frame.
    pub fn pop_frame(&mut self)
        requires
            env_wf(old(self)@),
            old(self)@.len() >= 2,
        ensures
            final(self)@ == old(self)@.drop_last(),
            env_wf(final(self)@),
            final(self)@.len() == old(self)@.len() - 1,
    {
        self.frames.pop();
        proof {
            assert(self@ =~= old(self)@.drop_last());
        }
    }
}

} // verus!
