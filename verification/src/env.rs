//! The chained-environment model: an arena of scope frames, each owning
//! its bindings and an optional parent. Closures capture a frame by its
//! arena index, so sibling closures can share one frame and a captured
//! frame outlives the call that created it.
use vstd::prelude::*;

use crate::types::{MalType, ValV, view_val};

verus! {

/// One scope frame: bindings in insertion order (the latest binding of
/// a name wins) and the index of the parent frame, if any.
#[derive(Debug)]
pub struct Frame {
    pub entries: Vec<(String, MalType)>,
    pub parent: Option<usize>,
}

/// Spec-level mirror of `Frame`.
#[verifier::ext_equal]
pub struct FrameV {
    pub entries: Seq<(Seq<char>, ValV)>,
    pub parent: Option<int>,
}

/// The environment: the arena of frames, plus the text the program has
/// printed so far (drained by the caller).
#[derive(Debug)]
pub struct Env {
    pub frames: Vec<Frame>,
    pub out: Vec<String>,
}

/// Spec-level mirror of `Env`.
#[verifier::ext_equal]
pub struct EnvV {
    pub frames: Seq<FrameV>,
    pub out: Seq<Seq<char>>,
}

impl View for Frame {
    type V = FrameV;

    open spec fn view(&self) -> FrameV {
        FrameV {
            entries: self.entries@.map_values(|e: (String, MalType)| (e.0@, view_val(e.1))),
            parent: match self.parent {
                Some(p) => Some(p as int),
                None => None,
            },
        }
    }
}

impl View for Env {
    type V = EnvV;

    open spec fn view(&self) -> EnvV {
        EnvV {
            frames: self.frames@.map_values(|f: Frame| f@),
            out: self.out@.map_values(|s: String| s@),
        }
    }
}

/// Each frame's parent was created before it: the chain always walks
/// toward the root and so terminates.
pub open spec fn env_wf(e: EnvV) -> bool {
    forall|i: int|
        0 <= i < e.frames.len() ==> match (#[trigger] e.frames[i]).parent {
            Some(p) => 0 <= p < i,
            None => true,
        }
}

/// A value mentions only frames that exist in an arena of `n` frames.
pub open spec fn val_wf(v: ValV, n: int) -> bool
    decreases v,
{
    match v {
        ValV::List(xs) => forall|i: int| 0 <= i < xs.len() ==> val_wf(#[trigger] xs[i], n),
        ValV::Vector(xs) => forall|i: int| 0 <= i < xs.len() ==> val_wf(#[trigger] xs[i], n),
        ValV::Dict(ps) => forall|i: int| 0 <= i < ps.len() ==> val_wf((#[trigger] ps[i]).1, n),
        ValV::Fn(f) => {
            &&& match f.env {
                Some(e) => 0 <= e < n,
                None => true,
            }
            &&& val_wf(*f.body, n)
        },
        _ => true,
    }
}

/// Every binding stored anywhere in the arena is well formed for it.
pub open spec fn env_vals_wf(e: EnvV) -> bool {
    forall|i: int, j: int|
        0 <= i < e.frames.len() && 0 <= j < e.frames[i].entries.len() ==> val_wf(
            (#[trigger] e.frames[i].entries[j]).1,
            e.frames.len() as int,
        )
}

/// A value stays well formed when the arena only grows.
pub proof fn lemma_val_wf_grow(v: ValV, n: int, m: int)
    requires
        val_wf(v, n),
        n <= m,
    ensures
        val_wf(v, m),
    decreases v,
{
    match v {
        ValV::List(xs) => {
            assert forall|i: int| 0 <= i < xs.len() implies val_wf(#[trigger] xs[i], m) by {
                lemma_val_wf_grow(xs[i], n, m);
            }
        },
        ValV::Vector(xs) => {
            assert forall|i: int| 0 <= i < xs.len() implies val_wf(#[trigger] xs[i], m) by {
                lemma_val_wf_grow(xs[i], n, m);
            }
        },
        ValV::Dict(ps) => {
            assert forall|i: int| 0 <= i < ps.len() implies val_wf((#[trigger] ps[i]).1, m) by {
                lemma_val_wf_grow(ps[i].1, n, m);
            }
        },
        ValV::Fn(f) => {
            lemma_val_wf_grow(*f.body, n, m);
        },
        _ => {},
    }
}

/// The binding a single frame gives a name: the latest entry wins.
pub open spec fn frame_lookup(entries: Seq<(Seq<char>, ValV)>, name: Seq<char>) -> Option<ValV>
    decreases entries.len(),
{
    if entries.len() == 0 {
        None
    } else if entries.last().0 == name {
        Some(entries.last().1)
    } else {
        frame_lookup(entries.drop_last(), name)
    }
}

/// The binding the chain gives a name: the first frame, walking outward
/// through parents, that binds it.
pub open spec fn env_lookup(frames: Seq<FrameV>, cur: int, name: Seq<char>) -> Option<ValV>
    decreases cur,
{
    if 0 <= cur < frames.len() {
        match frame_lookup(frames[cur].entries, name) {
            Some(v) => Some(v),
            None => match frames[cur].parent {
                Some(p) => if 0 <= p < cur {
                    env_lookup(frames, p, name)
                } else {
                    None
                },
                None => None,
            },
        }
    } else {
        None
    }
}

/// The outermost ancestor of a frame.
pub open spec fn env_root(frames: Seq<FrameV>, cur: int) -> int
    decreases cur,
{
    if 0 <= cur < frames.len() {
        match frames[cur].parent {
            Some(p) => if 0 <= p < cur {
                env_root(frames, p)
            } else {
                cur
            },
            None => cur,
        }
    } else {
        cur
    }
}

impl Env {
    /// A fresh environment holding the given root bindings.
    pub fn from(data: Vec<(String, MalType)>) -> (e: Env)
        ensures
            e@.frames.len() == 1,
            e@.frames[0].parent is None,
            e@.frames[0].entries == data@.map_values(
                |p: (String, MalType)| (p.0@, view_val(p.1)),
            ),
            e@.out == Seq::<Seq<char>>::empty(),
    {
        let e = Env { frames: vec![Frame { entries: data, parent: None }], out: Vec::new() };
        proof {
            assert(e@.frames =~= seq![e.frames@[0]@]);
            assert(e@.out =~= Seq::<Seq<char>>::empty());
        }
        e
    }

    /// Creates a child frame under `outer` (or a fresh root frame) and
    /// returns its index.
    pub fn new(&mut self, outer: Option<usize>) -> (idx: usize)
        requires
            match outer {
                Some(p) => p < old(self)@.frames.len(),
                None => true,
            },
        ensures
            idx == old(self)@.frames.len(),
            final(self)@.frames == old(self)@.frames.push(
                FrameV {
                    entries: Seq::empty(),
                    parent: match outer {
                        Some(p) => Some(p as int),
                        None => None,
                    },
                },
            ),
            final(self)@.out == old(self)@.out,
    {
        let idx = self.frames.len();
        self.frames.push(Frame { entries: Vec::new(), parent: outer });
        proof {
            assert(final(self)@.frames =~~= old(self)@.frames.push(
                FrameV {
                    entries: Seq::empty(),
                    parent: match outer {
                        Some(p) => Some(p as int),
                        None => None,
                    },
                },
            ));
            assert(final(self)@.out =~= old(self)@.out);
        }
        idx
    }

    /// Binds `key` to `value` in the given frame, shadowing any earlier
    /// binding of the same name there; never touches other frames.
    pub fn set(&mut self, frame: usize, key: String, value: MalType)
        requires
            frame < old(self)@.frames.len(),
        ensures
            final(self)@.frames == old(self)@.frames.update(
                frame as int,
                FrameV {
                    entries: old(self)@.frames[frame as int].entries.push((key@, value@)),
                    parent: old(self)@.frames[frame as int].parent,
                },
            ),
            final(self)@.out == old(self)@.out,
    {
        self.frames[frame].entries.push((key, value));
        proof {
            assert(final(self)@.frames =~~= old(self)@.frames.update(
                frame as int,
                FrameV {
                    entries: old(self)@.frames[frame as int].entries.push((key@, value@)),
                    parent: old(self)@.frames[frame as int].parent,
                },
            ));
            assert(final(self)@.out =~= old(self)@.out);
        }
    }

    /// Looks a name up through the chain starting at `frame`.
    pub fn get(&self, frame: usize, key: &String) -> (r: Option<MalType>)
        requires
            env_wf(self@),
            frame < self@.frames.len(),
        ensures
            match r {
                Some(v) => env_lookup(self@.frames, frame as int, key@) == Some(v@),
                None => env_lookup(self@.frames, frame as int, key@) is None,
            },
    {
        let mut cur: usize = frame;
        loop
            invariant
                env_wf(self@),
                cur < self@.frames.len(),
                env_lookup(self@.frames, frame as int, key@) == env_lookup(
                    self@.frames,
                    cur as int,
                    key@,
                ),
            decreases cur,
        {
            let entries = &self.frames[cur].entries;
            let ghost eview = self@.frames[cur as int].entries;
            let mut j: usize = entries.len();
            proof {
                assert(eview.take(j as int) =~= eview);
            }
            while j > 0
                invariant
                    j <= entries.len(),
                    eview == self@.frames[cur as int].entries,
                    cur < self@.frames.len(),
                    entries == &self.frames@[cur as int].entries,
                    eview.len() == entries.len(),
                    frame_lookup(eview, key@) == frame_lookup(eview.take(j as int), key@),
                    env_lookup(self@.frames, frame as int, key@) == env_lookup(
                        self@.frames,
                        cur as int,
                        key@,
                    ),
                decreases j,
            {
                let ghost pre = eview.take(j as int);
                assert(pre.last() == eview[j - 1]);
                assert(eview[j - 1] == (entries@[j - 1].0@, view_val(entries@[j - 1].1)));
                if entries[j - 1].0 == *key {
                    let v = entries[j - 1].1.clone();
                    assert(frame_lookup(eview, key@) == Some(v@));
                    proof {
                        lemma_env_lookup_found(self@.frames, cur as int, key@, v@);
                    }
                    return Some(v);
                }
                proof {
                    assert(pre.drop_last() =~= eview.take(j - 1));
                }
                j -= 1;
            }
            proof {
                assert(eview.take(0) =~= Seq::<(Seq<char>, ValV)>::empty());
                assert(frame_lookup(eview, key@) is None);
            }
            match self.frames[cur].parent {
                Some(p) => {
                    assert(self@.frames[cur as int].parent == Some(p as int));
                    cur = p;
                },
                None => {
                    return None;
                },
            }
        }
    }

    /// The outermost ancestor of `frame`.
    pub fn root_of(&self, frame: usize) -> (r: usize)
        requires
            env_wf(self@),
            frame < self@.frames.len(),
        ensures
            r as int == env_root(self@.frames, frame as int),
            r < self@.frames.len(),
    {
        let mut cur: usize = frame;
        loop
            invariant
                env_wf(self@),
                cur < self@.frames.len(),
                env_root(self@.frames, frame as int) == env_root(self@.frames, cur as int),
            decreases cur,
        {
            match self.frames[cur].parent {
                Some(p) => {
                    assert(self@.frames[cur as int].parent == Some(p as int));
                    cur = p;
                },
                None => {
                    return cur;
                },
            }
        }
    }

    /// Records one line of program output.
    pub fn emit(&mut self, line: String)
        ensures
            final(self)@.frames == old(self)@.frames,
            final(self)@.out == old(self)@.out.push(line@),
    {
        self.out.push(line);
        proof {
            assert(final(self)@.frames =~= old(self)@.frames);
            assert(final(self)@.out =~= old(self)@.out.push(line@));
        }
    }
}

proof fn lemma_env_lookup_found(frames: Seq<FrameV>, cur: int, name: Seq<char>, v: ValV)
    requires
        0 <= cur < frames.len(),
        frame_lookup(frames[cur].entries, name) == Some(v),
    ensures
        env_lookup(frames, cur, name) == Some(v),
{
}

proof fn lemma_frame_lookup_entry(entries: Seq<(Seq<char>, ValV)>, name: Seq<char>, v: ValV)
    requires
        frame_lookup(entries, name) == Some(v),
    ensures
        exists|j: int| 0 <= j < entries.len() && (#[trigger] entries[j]).1 == v,
    decreases entries.len(),
{
    if entries.len() > 0 {
        if entries.last().0 == name {
            assert(entries[entries.len() - 1].1 == v);
        } else {
            lemma_frame_lookup_entry(entries.drop_last(), name, v);
            let j = choose|j: int|
                0 <= j < entries.drop_last().len() && (#[trigger] entries.drop_last()[j]).1 == v;
            assert(entries[j].1 == v);
        }
    }
}

/// A value the chain hands out is well formed for the arena.
pub proof fn lemma_lookup_wf(e: EnvV, cur: int, name: Seq<char>, v: ValV)
    requires
        env_vals_wf(e),
        env_lookup(e.frames, cur, name) == Some(v),
    ensures
        val_wf(v, e.frames.len() as int),
    decreases cur,
{
    if 0 <= cur < e.frames.len() {
        match frame_lookup(e.frames[cur].entries, name) {
            Some(w) => {
                lemma_frame_lookup_entry(e.frames[cur].entries, name, v);
            },
            None => {
                match e.frames[cur].parent {
                    Some(p) => {
                        if 0 <= p < cur {
                            lemma_lookup_wf(e, p, name, v);
                        }
                    },
                    None => {},
                }
            },
        }
    }
}

/// Binding one more name in a frame keeps every stored value well
/// formed, provided the new value is.
pub proof fn lemma_vals_wf_after_set(pre: EnvV, post: EnvV, f: int, name: Seq<char>, v: ValV)
    requires
        env_vals_wf(pre),
        0 <= f < pre.frames.len(),
        post.frames == pre.frames.update(
            f,
            FrameV { entries: pre.frames[f].entries.push((name, v)), parent: pre.frames[f].parent },
        ),
        val_wf(v, post.frames.len() as int),
    ensures
        env_vals_wf(post),
{
    assert forall|a: int, b: int|
        0 <= a < post.frames.len() && 0 <= b < post.frames[a].entries.len() implies val_wf(
        (#[trigger] post.frames[a].entries[b]).1,
        post.frames.len() as int,
    ) by {
        if a == f {
            if b < pre.frames[f].entries.len() {
                assert(post.frames[a].entries[b] == pre.frames[a].entries[b]);
            } else {
                assert(post.frames[a].entries[b] == (name, v));
            }
        } else {
            assert(post.frames[a].entries[b] == pre.frames[a].entries[b]);
        }
    }
}

/// Binding one more name in a frame keeps the parent chain well
/// formed.
pub proof fn lemma_wf_after_set(pre: EnvV, post: EnvV, f: int, name: Seq<char>, v: ValV)
    requires
        env_wf(pre),
        0 <= f < pre.frames.len(),
        post.frames == pre.frames.update(
            f,
            FrameV { entries: pre.frames[f].entries.push((name, v)), parent: pre.frames[f].parent },
        ),
    ensures
        env_wf(post),
{
    assert forall|i: int| 0 <= i < post.frames.len() implies match (
    #[trigger] post.frames[i]).parent {
        Some(p) => 0 <= p < i,
        None => true,
    } by {
        if i != f {
            assert(post.frames[i] == pre.frames[i]);
        }
    }
}

/// Pushing a fresh frame keeps every stored value well formed,
/// provided the new frame's values are.
pub proof fn lemma_vals_wf_after_push(
    pre: EnvV,
    post: EnvV,
    entries: Seq<(Seq<char>, ValV)>,
    parent: Option<int>,
)
    requires
        env_vals_wf(pre),
        post.frames == pre.frames.push(FrameV { entries, parent }),
    ensures
        (forall|j: int|
            0 <= j < entries.len() ==> val_wf(
                (#[trigger] entries[j]).1,
                post.frames.len() as int,
            )) ==> env_vals_wf(post),
{
    if forall|j: int|
        0 <= j < entries.len() ==> val_wf((#[trigger] entries[j]).1, post.frames.len() as int) {
        assert forall|a: int, b: int|
            0 <= a < post.frames.len() && 0 <= b < post.frames[a].entries.len() implies val_wf(
            (#[trigger] post.frames[a].entries[b]).1,
            post.frames.len() as int,
        ) by {
            if a < pre.frames.len() {
                assert(post.frames[a] == pre.frames[a]);
                lemma_val_wf_grow(
                    pre.frames[a].entries[b].1,
                    pre.frames.len() as int,
                    post.frames.len() as int,
                );
            } else {
                assert(post.frames[a].entries[b] == entries[b]);
            }
        }
    }
}

/// Pushing a fresh frame under a valid parent keeps the chain well
/// formed.
pub proof fn lemma_wf_after_push(
    pre: EnvV,
    post: EnvV,
    entries: Seq<(Seq<char>, ValV)>,
    parent: Option<int>,
)
    requires
        env_wf(pre),
        post.frames == pre.frames.push(FrameV { entries, parent }),
        match parent {
            Some(p) => 0 <= p < pre.frames.len(),
            None => true,
        },
    ensures
        env_wf(post),
{
    assert forall|i: int| 0 <= i < post.frames.len() implies match (
    #[trigger] post.frames[i]).parent {
        Some(p) => 0 <= p < i,
        None => true,
    } by {
        if i < pre.frames.len() {
            assert(post.frames[i] == pre.frames[i]);
        }
    }
}

} // verus!
