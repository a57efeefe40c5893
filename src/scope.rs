//! A chain of variable bindings, innermost frame last.

use vstd::prelude::*;
use crate::ast::{Value, ValueModel};
use crate::text::append;

verus! {

/// The bindings of one frame, oldest first.
pub type FrameModel = Seq<(Seq<char>, ValueModel)>;

/// The value bound to `k` in a frame: the last binding of `k`.
pub open spec fn frame_get(f: FrameModel, k: Seq<char>) -> Option<ValueModel>
    decreases f.len(),
{
    if f.len() == 0 {
        None
    } else if f.last().0 == k {
        Some(f.last().1)
    } else {
        frame_get(f.drop_last(), k)
    }
}

/// The index of the last binding of `k` in a frame.
pub open spec fn frame_index(f: FrameModel, k: Seq<char>) -> Option<int>
    decreases f.len(),
{
    if f.len() == 0 {
        None
    } else if f.last().0 == k {
        Some(f.len() - 1)
    } else {
        frame_index(f.drop_last(), k)
    }
}

/// A frame where `k` is bound to `v`: its binding is overwritten if there
/// is one, else a binding is added.
pub open spec fn frame_set(f: FrameModel, k: Seq<char>, v: ValueModel) -> FrameModel {
    match frame_index(f, k) {
        Some(i) => f.update(i, (k, v)),
        None => f.push((k, v)),
    }
}

/// The value that `k` resolves to: the innermost frame that binds it wins.
pub open spec fn chain_get(frames: Seq<FrameModel>, k: Seq<char>) -> Option<ValueModel>
    decreases frames.len(),
{
    if frames.len() == 0 {
        None
    } else {
        match frame_get(frames.last(), k) {
            Some(v) => Some(v),
            None => chain_get(frames.drop_last(), k),
        }
    }
}

/// The chain after binding `k` to `v` in its innermost frame.
pub open spec fn chain_set(frames: Seq<FrameModel>, k: Seq<char>, v: ValueModel) -> Seq<
    FrameModel,
> {
    frames.update(frames.len() - 1, frame_set(frames.last(), k, v))
}

pub proof fn lemma_frame_index(f: FrameModel, k: Seq<char>)
    ensures
        match frame_index(f, k) {
            Some(i) => 0 <= i < f.len() && f[i].0 == k && frame_get(f, k) == Some(f[i].1)
                && forall|j: int| i < j < f.len() ==> f[j].0 != k,
            None => frame_get(f, k) is None && forall|j: int| 0 <= j < f.len() ==> f[j].0 != k,
        },
    decreases f.len(),
{
    if f.len() > 0 {
        let g = f.drop_last();
        lemma_frame_index(g, k);
        assert(forall|j: int| 0 <= j < g.len() ==> g[j] == f[j]);
    }
}

/// A binding that is not the last of its key does not count.
proof fn lemma_frame_get_update(f: FrameModel, i: int, k: Seq<char>, v: ValueModel, k2: Seq<char>)
    requires
        0 <= i < f.len(),
        f[i].0 == k,
        forall|j: int| i < j < f.len() ==> f[j].0 != k,
    ensures
        frame_get(f.update(i, (k, v)), k2) == if k2 == k {
            Some(v)
        } else {
            frame_get(f, k2)
        },
    decreases f.len(),
{
    let g = f.update(i, (k, v));
    if i < f.len() - 1 {
        assert(g.drop_last() =~= f.drop_last().update(i, (k, v)));
        lemma_frame_get_update(f.drop_last(), i, k, v, k2);
    } else {
        assert(g.drop_last() =~= f.drop_last());
    }
}

/// Binding `k` makes it resolve to the new value and leaves other names as
/// they were.
pub proof fn lemma_frame_set(f: FrameModel, k: Seq<char>, v: ValueModel, k2: Seq<char>)
    ensures
        frame_get(frame_set(f, k, v), k2) == if k2 == k {
            Some(v)
        } else {
            frame_get(f, k2)
        },
{
    lemma_frame_index(f, k);
    match frame_index(f, k) {
        Some(i) => lemma_frame_get_update(f, i, k, v, k2),
        None => {
            assert(f.push((k, v)).drop_last() =~= f);
        },
    }
}

pub open spec fn frame_model(f: Vec<(String, Value)>) -> FrameModel {
    f@.map_values(|e: (String, Value)| (e.0@, e.1.model()))
}

/// The index of the last binding of `name` in `frame`.
fn find_binding(frame: &Vec<(String, Value)>, name: &String) -> (r: Option<usize>)
    ensures
        r is Some <==> frame_index(frame_model(*frame), name@) is Some,
        r is Some ==> frame_index(frame_model(*frame), name@) == Some(r->0 as int),
{
    let ghost fm = frame_model(*frame);
    let mut j: usize = frame.len();
    assert(fm.take(j as int) =~= fm);
    while j > 0
        invariant
            j <= frame@.len(),
            fm == frame_model(*frame),
            frame_index(fm, name@) == frame_index(fm.take(j as int), name@),
        decreases j,
    {
        assert(fm.take(j as int).drop_last() =~= fm.take(j - 1));
        if frame[j - 1].0 == *name {
            return Some(j - 1);
        }
        j = j - 1;
    }
    None
}

/// Variable bindings in nested frames. Lookup walks from the innermost
/// frame outward; assignment always writes the innermost frame.
pub struct Scope {
    frames: Vec<Vec<(String, Value)>>,
}

impl Scope {
    /// The frames, outermost first.
    pub closed spec fn model(&self) -> Seq<FrameModel> {
        self.frames@.map_values(|f: Vec<(String, Value)>| frame_model(f))
    }

    pub open spec fn wf(&self) -> bool {
        self.model().len() >= 1
    }

    /// A scope with one empty frame, inside `parent` if there is one.
    pub fn new(parent: Option<Scope>) -> (r: Scope)
        requires
            parent is Some ==> parent->0.wf(),
        ensures
            r.wf(),
            r.model() == match parent {
                Some(p) => p.model().push(Seq::empty()),
                None => seq![Seq::<(Seq<char>, ValueModel)>::empty()],
            },
    {
        let ghost parent_model = if parent is Some {
            parent->0.model()
        } else {
            Seq::empty()
        };
        let mut frames = match parent {
            Some(p) => p.frames,
            None => Vec::new(),
        };
        assert(frames@.map_values(|f: Vec<(String, Value)>| frame_model(f)) =~= parent_model);
        let ghost before = frames@;
        frames.push(Vec::new());
        let r = Scope { frames };
        proof {
            assert(frame_model(r.frames@.last()) =~= Seq::empty());
            assert(r.model() =~= parent_model.push(Seq::empty()));
        }
        r
    }

    /// The value of `name`, from the innermost frame that binds it.
    pub fn get(&self, name: &str) -> (r: Option<Value>)
        ensures
            match chain_get(self.model(), name@) {
                Some(v) => r is Some && r->0.model() == v,
                None => r is None,
            },
    {
        let mut key = String::new();
        append(&mut key, name);
        let ghost m = self.model();
        let mut i: usize = self.frames.len();
        assert(m.take(i as int) =~= m);
        while i > 0
            invariant
                i <= self.frames@.len(),
                m == self.model(),
                key@ == name@,
                chain_get(m, name@) == chain_get(m.take(i as int), name@),
            decreases i,
        {
            let frame = &self.frames[i - 1];
            assert(m.take(i as int).drop_last() =~= m.take(i - 1));
            assert(m.take(i as int).last() == frame_model(*frame));
            match find_binding(frame, &key) {
                Some(j) => {
                    proof {
                        lemma_frame_index(frame_model(*frame), name@);
                        assert(frame_index(frame_model(*frame), name@) == Some(j as int));
                        assert(frame_model(*frame)[j as int].1 == frame@[j as int].1.model());
                        assert(chain_get(m.take(i as int), name@) == frame_get(
                            frame_model(*frame),
                            name@,
                        ));
                    }
                    return Some(frame[j].1.duplicate());
                },
                None => {
                    proof {
                        lemma_frame_index(frame_model(*frame), name@);
                    }
                },
            }
            i = i - 1;
        }
        None
    }

    /// Binds `name` to `value` in the innermost frame.
    pub fn set(&mut self, name: String, value: Value)
        requires
            old(self).wf(),
        ensures
            final(self).wf(),
            final(self).model() == chain_set(old(self).model(), name@, value.model()),
    {
        let ghost k = name@;
        let ghost v = value.model();
        let mut frame = match self.frames.pop() {
            Some(f) => f,
            None => Vec::new(),
        };
        let ghost fm = frame_model(frame);
        assert(fm == old(self).model().last());
        proof {
            lemma_frame_index(fm, k);
        }
        match find_binding(&frame, &name) {
            Some(j) => {
                assert(frame_index(fm, k) == Some(j as int));
                let ghost before = frame@;
                frame.set(j, (name, value));
                assert(frame@ == before.update(j as int, (name, value)));
                assert(frame_model(frame) =~= fm.update(j as int, (k, v)));
            },
            None => {
                frame.push((name, value));
                assert(frame_model(frame) =~= fm.push((k, v)));
            },
        }
        assert(frame_model(frame) =~= frame_set(fm, k, v));
        self.frames.push(frame);
        assert(self.model() =~= chain_set(old(self).model(), k, v));
    }

    /// Opens a new innermost frame.
    pub(crate) fn enter(&mut self)
        requires
            old(self).wf(),
        ensures
            final(self).wf(),
            final(self).model() == old(self).model().push(Seq::empty()),
    {
        self.frames.push(Vec::new());
        assert(frame_model(self.frames@.last()) =~= Seq::empty());
        assert(self.model() =~= old(self).model().push(Seq::empty()));
    }

    /// Drops the innermost frame.
    pub(crate) fn leave(&mut self)
        requires
            old(self).wf(),
            old(self).model().len() >= 2,
        ensures
            final(self).wf(),
            final(self).model() == old(self).model().drop_last(),
    {
        self.frames.pop();
        assert(final(self).model() =~= old(self).model().drop_last());
    }
}

} // verus!
