//! The frames of variables that evaluation reads and writes.
use crate::value::{
    copy_value, entries_model, lemma_entries_index, lemma_entries_push, value_model, VTable,
    Value, ValueM,
};
use vstd::prelude::*;

verus! {

/// The variables of one frame, by name, as a model.
pub type FrameM = Seq<(Seq<char>, ValueM)>;

/// The value of the first entry named `name`.
pub open spec fn assoc_get<V>(f: Seq<(Seq<char>, V)>, name: Seq<char>) -> Option<V>
    decreases f.len(),
{
    if f.len() == 0 {
        None
    } else if f[0].0 == name {
        Some(f[0].1)
    } else {
        assoc_get(f.drop_first(), name)
    }
}

/// The entries with `name` bound to `v`: the first entry of that name
/// changed, or a new entry at the end.
pub open spec fn assoc_set<V>(f: Seq<(Seq<char>, V)>, name: Seq<char>, v: V) -> Seq<(Seq<char>, V)>
    decreases f.len(),
{
    if f.len() == 0 {
        seq![(name, v)]
    } else if f[0].0 == name {
        f.update(0, (name, v))
    } else {
        seq![f[0]] + assoc_set(f.drop_first(), name, v)
    }
}

/// The value of `name` in the innermost frame that has it.
pub open spec fn stack_get(st: Seq<FrameM>, name: Seq<char>) -> Option<ValueM>
    decreases st.len(),
{
    if st.len() == 0 {
        None
    } else if assoc_get(st.last(), name) is Some {
        assoc_get(st.last(), name)
    } else {
        stack_get(st.drop_last(), name)
    }
}

/// The stack with `name` bound to `v` in the innermost frame (a first
/// frame is made where there is none).
pub open spec fn stack_set(st: Seq<FrameM>, name: Seq<char>, v: ValueM) -> Seq<FrameM> {
    if st.len() == 0 {
        seq![seq![(name, v)]]
    } else {
        st.update(st.len() - 1, assoc_set(st.last(), name, v))
    }
}

/// The stack with `name` set to `v` in the innermost frame that has it, or
/// `None` where no frame has it.
pub open spec fn stack_up(st: Seq<FrameM>, name: Seq<char>, v: ValueM) -> Option<Seq<FrameM>>
    decreases st.len(),
{
    if st.len() == 0 {
        None
    } else if assoc_get(st.last(), name) is Some {
        Some(st.update(st.len() - 1, assoc_set(st.last(), name, v)))
    } else {
        match stack_up(st.drop_last(), name, v) {
            Some(s) => Some(s.push(st.last())),
            None => None,
        }
    }
}

/// The stack of frames: the last frame is the innermost.
#[derive(Debug)]
pub struct StackFrame {
    pub frames: Vec<VTable>,
}

/// The models of a list of frames.
pub open spec fn frames_model(s: Seq<VTable>) -> Seq<FrameM>
    decreases s.len(),
{
    if s.len() == 0 {
        Seq::empty()
    } else {
        frames_model(s.drop_last()).push(s.last()@)
    }
}

impl View for StackFrame {
    type V = Seq<FrameM>;

    open spec fn view(&self) -> Seq<FrameM> {
        frames_model(self.frames@)
    }
}

/// `frames_model` keeps the length and maps each frame to its model.
pub proof fn lemma_frames_index(s: Seq<VTable>)
    ensures
        frames_model(s).len() == s.len(),
        forall|i: int| 0 <= i < s.len() ==> #[trigger] frames_model(s)[i] == s[i]@,
    decreases s.len(),
{
    if s.len() > 0 {
        lemma_frames_index(s.drop_last());
    }
}

/// The index of the first variable named `name` in a frame.
pub fn find_in<T>(f: &Vec<(String, T)>, name: &String) -> (r: Option<usize>)
    ensures
        match r {
            Some(i) => i < f@.len() && f@[i as int].0@ == name@ && forall|j: int|
                0 <= j < i ==> #[trigger] f@[j].0@ != name@,
            None => forall|j: int| 0 <= j < f@.len() ==> #[trigger] f@[j].0@ != name@,
        },
{
    let mut i: usize = 0;
    while i < f.len()
        invariant
            i <= f@.len(),
            forall|j: int| 0 <= j < i ==> #[trigger] f@[j].0@ != name@,
        decreases f.len() - i,
    {
        if f[i].0 == *name {
            return Some(i);
        }
        i = i + 1;
    }
    None
}

/// Reading and setting a frame at the first variable with the name.
pub proof fn lemma_assoc_at<V>(f: Seq<(Seq<char>, V)>, i: int, name: Seq<char>, v: V)
    requires
        0 <= i < f.len(),
        f[i].0 == name,
        forall|j: int| 0 <= j < i ==> #[trigger] f[j].0 != name,
    ensures
        assoc_set(f, name, v) == f.update(i, (name, v)),
        assoc_get(f, name) == Some(f[i].1),
    decreases i,
{
    if i > 0 {
        assert forall|j: int| 0 <= j < i - 1 implies #[trigger] f.drop_first()[j].0 != name by {
            assert(f.drop_first()[j] == f[j + 1]);
        }
        lemma_assoc_at(f.drop_first(), i - 1, name, v);
        assert(seq![f[0]] + f.drop_first().update(i - 1, (name, v)) =~= f.update(i, (name, v)));
    }
}

/// Reading and setting a frame without a variable of the name.
pub proof fn lemma_assoc_absent<V>(f: Seq<(Seq<char>, V)>, name: Seq<char>, v: V)
    requires
        forall|j: int| 0 <= j < f.len() ==> #[trigger] f[j].0 != name,
    ensures
        assoc_set(f, name, v) == f.push((name, v)),
        assoc_get(f, name) is None,
    decreases f.len(),
{
    if f.len() > 0 {
        assert forall|j: int| 0 <= j < f.len() - 1 implies #[trigger] f.drop_first()[j].0 != name by {
            assert(f.drop_first()[j] == f[j + 1]);
        }
        lemma_assoc_absent(f.drop_first(), name, v);
        assert(seq![f[0]] + f.drop_first().push((name, v)) =~= f.push((name, v)));
    }
}

/// `frames_model` of a sequence with one more frame.
pub proof fn lemma_frames_push(s: Seq<VTable>, x: VTable)
    ensures
        frames_model(s.push(x)) == frames_model(s).push(x@),
{
    assert(s.push(x).drop_last() =~= s);
}

/// `frames_model` of a sequence with one frame changed.
pub proof fn lemma_frames_update(s: Seq<VTable>, i: int, x: VTable)
    requires
        0 <= i < s.len(),
    ensures
        frames_model(s.update(i, x)) == frames_model(s).update(i, x@),
{
    lemma_frames_index(s);
    lemma_frames_index(s.update(i, x));
    assert(frames_model(s.update(i, x)) =~= frames_model(s).update(i, x@));
}

/// Reading and updating a stack whose innermost frame with `name` is frame `i`.
pub proof fn lemma_stack_found(st: Seq<FrameM>, i: int, name: Seq<char>, v: ValueM)
    requires
        0 <= i < st.len(),
        assoc_get(st[i], name) is Some,
        forall|j: int| i < j < st.len() ==> assoc_get(#[trigger] st[j], name) is None,
    ensures
        stack_get(st, name) == assoc_get(st[i], name),
        stack_up(st, name, v) == Some(st.update(i, assoc_set(st[i], name, v))),
    decreases st.len(),
{
    if i < st.len() - 1 {
        let d = st.drop_last();
        assert forall|j: int| i < j < d.len() implies assoc_get(#[trigger] d[j], name) is None by {
            assert(d[j] == st[j]);
        }
        assert(assoc_get(st[st.len() - 1], name) is None);
        lemma_stack_found(d, i, name, v);
        assert(d.update(i, assoc_set(st[i], name, v)).push(st.last()) =~= st.update(
            i,
            assoc_set(st[i], name, v),
        ));
    }
}

/// Reading and updating a stack in which no frame has `name`.
pub proof fn lemma_stack_absent(st: Seq<FrameM>, name: Seq<char>, v: ValueM)
    requires
        forall|j: int| 0 <= j < st.len() ==> assoc_get(#[trigger] st[j], name) is None,
    ensures
        stack_get(st, name) is None,
        stack_up(st, name, v) is None,
    decreases st.len(),
{
    if st.len() > 0 {
        let d = st.drop_last();
        assert forall|j: int| 0 <= j < d.len() implies assoc_get(#[trigger] d[j], name) is None by {
            assert(d[j] == st[j]);
        }
        assert(assoc_get(st[st.len() - 1], name) is None);
        lemma_stack_absent(d, name, v);
    }
}

/// Binds `name` to `v` among the variables `f`.
pub fn entries_insert(f: &mut Vec<(String, Value)>, name: String, v: Value)
    ensures
        entries_model(final(f)@) == assoc_set(entries_model(old(f)@), name@, v@),
{
    let ghost m = entries_model(f@);
    proof {
        lemma_entries_index(f@);
    }
    match find_in(f, &name) {
        Some(i) => {
            proof {
                assert forall|j: int| 0 <= j < i implies #[trigger] m[j].0 != name@ by {
                    assert(m[j].0 == f@[j].0@);
                }
                lemma_assoc_at(m, i as int, name@, v@);
            }
            f.set(i, (name, v));
            proof {
                lemma_entries_index(f@);
                assert(entries_model(f@) =~= m.update(i as int, (name@, v@)));
            }
        },
        None => {
            proof {
                assert forall|j: int| 0 <= j < m.len() implies #[trigger] m[j].0 != name@ by {
                    assert(m[j].0 == f@[j].0@);
                }
                lemma_assoc_absent(m, name@, v@);
            }
            let ghost before = f@;
            f.push((name, v));
            proof {
                lemma_entries_push(before, (name, v));
            }
        },
    }
}

/// Binds the field `name` to `t` and `v` in the body `f` of an object.
pub fn body_insert(f: &mut Vec<(String, (crate::types::Type, Value))>, name: String, t: crate::types::Type, v: Value)
    ensures
        crate::value::body_model(final(f)@) == assoc_set(crate::value::body_model(old(f)@), name@, (t@, v@)),
{
    let ghost m = crate::value::body_model(f@);
    proof {
        crate::value::lemma_body_index(f@);
    }
    match find_in(f, &name) {
        Some(i) => {
            proof {
                assert forall|j: int| 0 <= j < i implies #[trigger] m[j].0 != name@ by {
                    assert(m[j].0 == f@[j].0@);
                }
                lemma_assoc_at(m, i as int, name@, (t@, v@));
            }
            f.set(i, (name, (t, v)));
            proof {
                crate::value::lemma_body_index(f@);
                assert(crate::value::body_model(f@) =~= m.update(i as int, (name@, (t@, v@))));
            }
        },
        None => {
            proof {
                assert forall|j: int| 0 <= j < m.len() implies #[trigger] m[j].0 != name@ by {
                    assert(m[j].0 == f@[j].0@);
                }
                lemma_assoc_absent(m, name@, (t@, v@));
            }
            let ghost before = f@;
            f.push((name, (t, v)));
            proof {
                crate::value::lemma_body_push(before, (name, (t, v)));
            }
        },
    }
}

/// Each frame binds each name at most once.
pub open spec fn frames_unique(st: Seq<FrameM>) -> bool {
    forall|i: int| 0 <= i < st.len() ==> crate::laws::names_unique(#[trigger] st[i])
}

/// An update keeps each frame binding each name at most once.
pub proof fn lemma_stack_up_keeps_unique(st: Seq<FrameM>, name: Seq<char>, v: ValueM)
    requires
        frames_unique(st),
    ensures
        stack_up(st, name, v) matches Some(s) ==> frames_unique(s),
    decreases st.len(),
{
    if st.len() > 0 {
        if assoc_get(st.last(), name) is Some {
            crate::laws::law_assoc_set_keeps_names_unique(st.last(), name, v);
            let s = st.update(st.len() - 1, assoc_set(st.last(), name, v));
            assert forall|i: int| 0 <= i < s.len() implies crate::laws::names_unique(#[trigger] s[i]) by {
                if i < st.len() - 1 {
                    assert(s[i] == st[i]);
                }
            }
        } else {
            let d = st.drop_last();
            assert forall|i: int| 0 <= i < d.len() implies crate::laws::names_unique(#[trigger] d[i]) by {
                assert(d[i] == st[i]);
            }
            lemma_stack_up_keeps_unique(d, name, v);
            if let Some(s) = stack_up(d, name, v) {
                let s2 = s.push(st.last());
                assert forall|i: int| 0 <= i < s2.len() implies crate::laws::names_unique(#[trigger] s2[i]) by {
                    if i < s.len() {
                        assert(s2[i] == s[i]);
                    }
                }
            }
        }
    }
}

impl StackFrame {
    /// The stack is well formed: no frame binds a name twice. `new` makes a
    /// well-formed stack and every method keeps it so.
    pub open spec fn well_formed(&self) -> bool {
        frames_unique(self@)
    }

    /// A stack with one empty frame.
    pub fn new() -> (s: StackFrame)
        ensures
            s@ == seq![Seq::<(Seq<char>, ValueM)>::empty()],
            s.well_formed(),
    {
        let mut frames: Vec<VTable> = Vec::new();
        frames.push(VTable(Vec::new()));
        proof {
            lemma_frames_push(Seq::empty(), frames@[0]);
            assert(Seq::<VTable>::empty().push(frames@[0]) =~= frames@);
            assert(entries_model(frames@[0].0@) =~= Seq::<(Seq<char>, ValueM)>::empty());
        }
        let s = StackFrame { frames };
        assert(s@ =~= seq![Seq::<(Seq<char>, ValueM)>::empty()]);
        s
    }

    /// The innermost frame that has `name`, and the index of the variable in it.
    fn locate(&self, name: &String) -> (r: Option<(usize, usize)>)
        ensures
            match r {
                Some((i, j)) => i < self.frames@.len() && j < self.frames@[i as int].0@.len()
                    && self.frames@[i as int].0@[j as int].0@ == name@
                    && stack_get(self@, name@) == Some(value_model(self.frames@[i as int].0@[j as int].1))
                    && forall|w: ValueM| #[trigger] stack_up(self@, name@, w) == Some(self@.update(
                        i as int,
                        assoc_set(self@[i as int], name@, w),
                    )),
                None => stack_get(self@, name@) is None && forall|w: ValueM| #[trigger] stack_up(self@, name@, w) is None,
            },
    {
        let ghost st = self@;
        proof {
            lemma_frames_index(self.frames@);
        }
        let mut i = self.frames.len();
        while i > 0
            invariant
                i <= self.frames@.len(),
                st == self@,
                st.len() == self.frames@.len(),
                forall|k: int| 0 <= k < st.len() ==> #[trigger] st[k] == self.frames@[k]@,
                forall|k: int| i <= k < st.len() ==> assoc_get(#[trigger] st[k], name@) is None,
            decreases i,
        {
            i = i - 1;
            let found = find_in(&self.frames[i].0, name);
            let ghost f = self.frames@[i as int].0@;
            proof {
                lemma_entries_index(f);
            }
            match found {
                Some(j) => {
                    proof {
                        assert forall|k: int| 0 <= k < j implies #[trigger] st[i as int][k].0 != name@ by {
                            assert(st[i as int][k].0 == f[k].0@);
                        }
                        assert forall|w: ValueM| #[trigger] stack_up(st, name@, w) == Some(st.update(
                            i as int,
                            assoc_set(st[i as int], name@, w),
                        )) by {
                            lemma_assoc_at(st[i as int], j as int, name@, w);
                            lemma_stack_found(st, i as int, name@, w);
                        }
                        lemma_assoc_at(st[i as int], j as int, name@, ValueM::Empty);
                        lemma_stack_found(st, i as int, name@, ValueM::Empty);
                    }
                    return Some((i, j));
                },
                None => {
                    proof {
                        assert forall|k: int| 0 <= k < st[i as int].len() implies #[trigger] st[i as int][k].0 != name@ by {
                            assert(st[i as int][k].0 == f[k].0@);
                        }
                        lemma_assoc_absent(st[i as int], name@, ValueM::Empty);
                    }
                },
            }
        }
        proof {
            assert forall|w: ValueM| #[trigger] stack_up(st, name@, w) is None by {
                lemma_stack_absent(st, name@, w);
            }
            lemma_stack_absent(st, name@, ValueM::Empty);
        }
        None
    }

    /// The value of `name` in the innermost frame that has it.
    pub fn get(&self, name: &String) -> (r: Option<&Value>)
        ensures
            match r {
                Some(v) => stack_get(self@, name@) == Some(v@),
                None => stack_get(self@, name@) is None,
            },
    {
        match self.locate(name) {
            Some((i, j)) => Some(&self.frames[i].0[j].1),
            None => None,
        }
    }

    /// Binds `name` to `v` in the innermost frame.
    pub fn set(&mut self, name: String, v: Value)
        ensures
            final(self)@ == stack_set(old(self)@, name@, v@),
            old(self).well_formed() ==> final(self).well_formed(),
    {
        let ghost st0 = self@;
        let ghost key = name@;
        let ghost val = v@;
        let n = self.frames.len();
        if n == 0 {
            let mut f: Vec<(String, Value)> = Vec::new();
            let ghost vm = v@;
            let ghost nm = name@;
            f.push((name, v));
            self.frames.push(VTable(f));
            proof {
                lemma_frames_push(Seq::empty(), self.frames@[0]);
                assert(Seq::<VTable>::empty().push(self.frames@[0]) =~= self.frames@);
                lemma_entries_push(Seq::empty(), f@[0]);
                assert(Seq::<(String, Value)>::empty().push(f@[0]) =~= f@);
                assert(self@ =~= seq![seq![(nm, vm)]]);
            }
        } else {
            let ghost before = self.frames@;
            proof {
                lemma_frames_index(before);
            }
            entries_insert(&mut self.frames[n - 1].0, name, v);
            proof {
                lemma_frames_update(before, n - 1, self.frames@[n - 1]);
                assert(before.update(n - 1, self.frames@[n - 1]) =~= self.frames@);
            }
        }
        proof {
            if frames_unique(st0) {
                crate::laws::law_stack_set_keeps_frames_unique(st0, key, val);
                assert forall|i: int| 0 <= i < self@.len() implies crate::laws::names_unique(#[trigger] self@[i]) by {
                    assert(self@[i] == stack_set(st0, key, val)[i]);
                }
            }
        }
    }

    /// Sets `name` to `v` in the innermost frame that has it; `false`, and
    /// the stack unchanged, where no frame has it.
    pub fn up(&mut self, name: &String, v: &Value) -> (found: bool)
        ensures
            found == stack_up(old(self)@, name@, v@) is Some,
            found ==> final(self)@ == stack_up(old(self)@, name@, v@)->0,
            !found ==> final(self)@ == old(self)@,
            old(self).well_formed() ==> final(self).well_formed(),
    {
        proof {
            if frames_unique(self@) {
                lemma_stack_up_keeps_unique(self@, name@, v@);
            }
        }
        match self.locate(name) {
            Some((i, _)) => {
                let ghost before = self.frames@;
                proof {
                    lemma_frames_index(before);
                }
                let copy = crate::value::copy_value(v);
                entries_insert(&mut self.frames[i].0, name.clone(), copy);
                proof {
                    lemma_frames_update(before, i as int, self.frames@[i as int]);
                    assert(before.update(i as int, self.frames@[i as int]) =~= self.frames@);
                    assert(stack_up(frames_model(before), name@, v@) == Some(frames_model(before).update(
                        i as int,
                        assoc_set(frames_model(before)[i as int], name@, v@),
                    )));
                }
                true
            },
            None => false,
        }
    }

    /// Adds `vt` as the innermost frame.
    pub fn push_frame(&mut self, vt: VTable)
        ensures
            final(self)@ == old(self)@.push(vt@),
            old(self).well_formed() && crate::laws::names_unique(vt@) ==> final(self).well_formed(),
    {
        let ghost before = self.frames@;
        self.frames.push(vt);
        proof {
            lemma_frames_push(before, vt);
        }
    }

    /// Drops the innermost frame; `false`, and the stack unchanged, where there
    /// is no frame.
    pub fn pop_frame(&mut self) -> (popped: bool)
        ensures
            popped == (old(self)@.len() > 0),
            popped ==> final(self)@ == old(self)@.drop_last(),
            !popped ==> final(self)@ == old(self)@,
            old(self).well_formed() ==> final(self).well_formed(),
    {
        proof {
            lemma_frames_index(self.frames@);
        }
        if self.frames.len() == 0 {
            return false;
        }
        let ghost before = self.frames@;
        let ghost st0 = self@;
        let _ = self.frames.pop();
        proof {
            assert(before.drop_last() =~= self.frames@);
            assert(self@ == st0.drop_last());
            if frames_unique(st0) {
                assert forall|i: int| 0 <= i < self@.len() implies crate::laws::names_unique(#[trigger] self@[i]) by {
                    assert(self@[i] == st0[i]);
                }
            }
        }
        true
    }
}

} // verus!
