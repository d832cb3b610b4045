//! Nested scopes of variables: a lookup finds the innermost binding, an
//! assignment changes the innermost binding or else binds in the current
//! scope.
use vstd::prelude::*;

verus! {

/// A scope: its variables, each name at most once, and the scope around it.
#[verifier::reject_recursive_types(V)]
#[derive(Debug)]
pub struct Scope<V> {
    pub up: Option<Box<Scope<V>>>,
    pub root: bool,
    pub vars: Vec<(String, V)>,
}

/// The bindings of one scope, by name.
pub open spec fn frame<V>(vars: Seq<(String, V)>) -> Seq<(Seq<char>, V)> {
    Seq::new(vars.len(), |i: int| (vars[i].0@, vars[i].1))
}

/// The bindings of a scope and of those around it, innermost first.
pub open spec fn frames<V>(s: Scope<V>) -> Seq<Seq<(Seq<char>, V)>>
    decreases s,
{
    seq![frame(s.vars@)] + match s.up {
        Some(b) => frames(*b),
        None => Seq::empty(),
    }
}

/// The first position of `key` in a frame from `i` on.
pub open spec fn position<V>(f: Seq<(Seq<char>, V)>, key: Seq<char>, i: int) -> Option<int>
    decreases f.len() - i,
{
    if i < 0 || i >= f.len() {
        None
    } else if f[i].0 == key {
        Some(i)
    } else {
        position(f, key, i + 1)
    }
}

/// The value `key` is bound to in the innermost frame that binds it.
pub open spec fn read_frames<V>(fs: Seq<Seq<(Seq<char>, V)>>, key: Seq<char>) -> Option<V>
    decreases fs.len(),
{
    if fs.len() == 0 {
        None
    } else {
        match position(fs[0], key, 0) {
            Some(i) => Some(fs[0][i].1),
            None => read_frames(fs.drop_first(), key),
        }
    }
}

/// Some frame binds `key`.
pub open spec fn binds<V>(fs: Seq<Seq<(Seq<char>, V)>>, key: Seq<char>) -> bool {
    exists|k: int| 0 <= k < fs.len() && (#[trigger] position(fs[k], key, 0)) is Some
}

/// The frames with the innermost binding of `key` set to `v`.
pub open spec fn update_frames<V>(fs: Seq<Seq<(Seq<char>, V)>>, key: Seq<char>, v: V) -> Seq<
    Seq<(Seq<char>, V)>,
>
    decreases fs.len(),
{
    if fs.len() == 0 {
        fs
    } else {
        match position(fs[0], key, 0) {
            Some(i) => fs.update(0, fs[0].update(i, (key, v))),
            None => seq![fs[0]] + update_frames(fs.drop_first(), key, v),
        }
    }
}

/// The frames after assigning `v` to `key`: the innermost binding of `key`
/// changes, or, where none binds it, the current frame gains the binding.
pub open spec fn write_frames<V>(fs: Seq<Seq<(Seq<char>, V)>>, key: Seq<char>, v: V) -> Seq<
    Seq<(Seq<char>, V)>,
> {
    if binds(fs, key) {
        update_frames(fs, key, v)
    } else {
        fs.update(0, fs[0].push((key, v)))
    }
}

proof fn lemma_position_frame<V>(vars: Seq<(String, V)>, key: Seq<char>, i: int)
    requires
        0 <= i <= vars.len(),
    ensures
        position(frame(vars), key, i) matches Some(j) ==> i <= j < vars.len() && vars[j].0@ == key,
    decreases vars.len() - i,
{
    if i < vars.len() {
        lemma_position_frame(vars, key, i + 1);
    }
}

proof fn lemma_binds_split<V>(fs: Seq<Seq<(Seq<char>, V)>>, key: Seq<char>)
    requires
        fs.len() > 0,
        position(fs[0], key, 0) is None,
    ensures
        binds(fs, key) == binds(fs.drop_first(), key),
{
    if binds(fs, key) {
        let k = choose|k: int| 0 <= k < fs.len() && (#[trigger] position(fs[k], key, 0)) is Some;
        assert(fs.drop_first()[k - 1] == fs[k]);
    }
    if binds(fs.drop_first(), key) {
        let k = choose|k: int|
            0 <= k < fs.drop_first().len() && (#[trigger] position(fs.drop_first()[k], key, 0)) is Some;
        assert(fs[k + 1] == fs.drop_first()[k]);
    }
}

proof fn lemma_position_same_keys<V>(f: Seq<(Seq<char>, V)>, g: Seq<(Seq<char>, V)>, key: Seq<char>, j: int)
    requires
        f.len() == g.len(),
        forall|m: int| 0 <= m < f.len() ==> #[trigger] f[m].0 == g[m].0,
    ensures
        position(f, key, j) == position(g, key, j),
    decreases f.len() - j,
{
    if 0 <= j < f.len() {
        lemma_position_same_keys(f, g, key, j + 1);
    }
}

pub proof fn lemma_position_found<V>(f: Seq<(Seq<char>, V)>, key: Seq<char>, j: int)
    requires
        0 <= j,
    ensures
        position(f, key, j) matches Some(i) ==> j <= i < f.len() && f[i].0 == key,
        position(f, key, j) is None ==> forall|m: int| j <= m < f.len() ==> #[trigger] f[m].0 != key,
    decreases f.len() - j,
{
    if j < f.len() {
        lemma_position_found(f, key, j + 1);
    }
}

proof fn lemma_position_push<V>(f: Seq<(Seq<char>, V)>, e: (Seq<char>, V), key: Seq<char>, j: int)
    requires
        0 <= j <= f.len(),
    ensures
        position(f.push(e), key, j) == match position(f, key, j) {
            Some(i) => Some(i),
            None => if e.0 == key {
                Some(f.len() as int)
            } else {
                None
            },
        },
    decreases f.len() - j,
{
    if j < f.len() {
        lemma_position_push(f, e, key, j + 1);
        assert(f.push(e)[j] == f[j]);
    } else {
        assert(f.push(e)[j] == e);
        if e.0 != key {
            assert(position(f.push(e), key, j + 1) is None);
        }
    }
}

/// No name is bound twice in one frame.
pub open spec fn distinct_names<V>(f: Seq<(Seq<char>, V)>) -> bool {
    forall|i: int, j: int| 0 <= i < j < f.len() ==> #[trigger] f[i].0 != #[trigger] f[j].0
}

/// No name is bound twice in any one frame.
pub open spec fn frames_distinct<V>(fs: Seq<Seq<(Seq<char>, V)>>) -> bool {
    forall|k: int| 0 <= k < fs.len() ==> distinct_names(#[trigger] fs[k])
}

proof fn lemma_update_keeps_names<V>(fs: Seq<Seq<(Seq<char>, V)>>, key: Seq<char>, v: V)
    ensures
        update_frames(fs, key, v).len() == fs.len(),
        forall|k: int| 0 <= k < fs.len() ==> (#[trigger] update_frames(fs, key, v)[k]).len() == fs[k].len()
            && forall|m: int| 0 <= m < fs[k].len() ==> update_frames(fs, key, v)[k][m].0 == fs[k][m].0,
    decreases fs.len(),
{
    if fs.len() > 0 {
        lemma_position_found(fs[0], key, 0);
        match position(fs[0], key, 0) {
            Some(i) => {},
            None => {
                lemma_update_keeps_names(fs.drop_first(), key, v);
                let u = update_frames(fs, key, v);
                assert forall|k: int| 0 <= k < fs.len() implies (#[trigger] u[k]).len() == fs[k].len()
                    && forall|m: int| 0 <= m < fs[k].len() ==> u[k][m].0 == fs[k][m].0 by {
                    if k > 0 {
                        assert(u[k] == update_frames(fs.drop_first(), key, v)[k - 1]);
                        assert(fs[k] == fs.drop_first()[k - 1]);
                    }
                }
            },
        }
    }
}

/// Assigning a variable keeps every scope free of names bound twice: a new
/// binding is only made where no scope binds the name yet.
pub proof fn lemma_write_keeps_names_distinct<V>(fs: Seq<Seq<(Seq<char>, V)>>, key: Seq<char>, v: V)
    requires
        fs.len() > 0,
        frames_distinct(fs),
    ensures
        frames_distinct(write_frames(fs, key, v)),
{
    let w = write_frames(fs, key, v);
    if binds(fs, key) {
        lemma_update_keeps_names(fs, key, v);
        assert forall|k: int| 0 <= k < w.len() implies distinct_names(#[trigger] w[k]) by {
            assert(distinct_names(fs[k]));
            assert forall|i: int, j: int| 0 <= i < j < w[k].len() implies #[trigger] w[k][i].0
                != #[trigger] w[k][j].0 by {
                assert(fs[k][i].0 != fs[k][j].0);
            }
        }
    } else {
        assert(position(fs[0], key, 0) is None) by {
            if position(fs[0], key, 0) is Some {
                assert(0 <= 0 < fs.len() && position(fs[0], key, 0) is Some);
            }
        }
        lemma_position_found(fs[0], key, 0);
        assert forall|k: int| 0 <= k < w.len() implies distinct_names(#[trigger] w[k]) by {
            assert(distinct_names(fs[k]));
            if k == 0 {
                let f = fs[0].push((key, v));
                assert(w[0] == f);
                assert forall|i: int, j: int| 0 <= i < j < f.len() implies #[trigger] f[i].0
                    != #[trigger] f[j].0 by {
                    if j == fs[0].len() {
                        assert(f[i] == fs[0][i]);
                    } else {
                        assert(f[i] == fs[0][i]);
                        assert(f[j] == fs[0][j]);
                    }
                }
            }
        }
    }
}

/// A new scope, and leaving one, keep every scope free of names bound
/// twice.
pub proof fn lemma_enter_leave_keep_names_distinct<V>(fs: Seq<Seq<(Seq<char>, V)>>)
    requires
        frames_distinct(fs),
    ensures
        frames_distinct(seq![Seq::<(Seq<char>, V)>::empty()] + fs),
        fs.len() > 0 ==> frames_distinct(fs.drop_first()),
{
    let g = seq![Seq::<(Seq<char>, V)>::empty()] + fs;
    assert forall|k: int| 0 <= k < g.len() implies distinct_names(#[trigger] g[k]) by {
        if k > 0 {
            assert(g[k] == fs[k - 1]);
        }
    }
    if fs.len() > 0 {
        assert forall|k: int| 0 <= k < fs.drop_first().len() implies distinct_names(
            #[trigger] fs.drop_first()[k],
        ) by {
            assert(fs.drop_first()[k] == fs[k + 1]);
        }
    }
}

/// Reading a variable right after assigning it gives the value assigned.
pub proof fn lemma_read_after_write<V>(fs: Seq<Seq<(Seq<char>, V)>>, key: Seq<char>, v: V)
    requires
        fs.len() > 0,
    ensures
        read_frames(write_frames(fs, key, v), key) == Some(v),
{
    if binds(fs, key) {
        lemma_read_after_update(fs, key, v);
    } else {
        let f = fs[0];
        let g = f.push((key, v));
        let ws = fs.update(0, g);
        assert(position(f, key, 0) is None) by {
            assert(!(0 <= 0 < fs.len() && (position(fs[0], key, 0)) is Some));
        }
        lemma_position_push(f, (key, v), key, 0);
        assert(ws[0] == g);
        assert(g[f.len() as int] == (key, v));
    }
}

proof fn lemma_read_after_update<V>(fs: Seq<Seq<(Seq<char>, V)>>, key: Seq<char>, v: V)
    requires
        binds(fs, key),
    ensures
        read_frames(update_frames(fs, key, v), key) == Some(v),
    decreases fs.len(),
{
    let f = fs[0];
    match position(f, key, 0) {
        Some(i) => {
            lemma_position_found(f, key, 0);
            let g = f.update(i, (key, v));
            lemma_position_same_keys(f, g, key, 0);
            assert(fs.update(0, g)[0] == g);
        },
        None => {
            lemma_binds_split(fs, key);
            lemma_read_after_update(fs.drop_first(), key, v);
            let us = seq![f] + update_frames(fs.drop_first(), key, v);
            assert(us[0] == f);
            assert(us.drop_first() =~= update_frames(fs.drop_first(), key, v));
        },
    }
}

/// Assigning a variable leaves what every other name reads unchanged.
pub proof fn lemma_read_other_after_write<V>(
    fs: Seq<Seq<(Seq<char>, V)>>,
    key: Seq<char>,
    other: Seq<char>,
    v: V,
)
    requires
        fs.len() > 0,
        other != key,
    ensures
        read_frames(write_frames(fs, key, v), other) == read_frames(fs, other),
{
    if binds(fs, key) {
        lemma_read_other_after_update(fs, key, other, v);
    } else {
        let f = fs[0];
        let g = f.push((key, v));
        let ws = fs.update(0, g);
        lemma_position_push(f, (key, v), other, 0);
        assert(ws[0] == g);
        assert(ws.drop_first() =~= fs.drop_first());
        assert(g.subrange(0, f.len() as int) =~= f);
        match position(f, other, 0) {
            Some(i) => {
                lemma_position_found(f, other, 0);
                assert(g[i] == f[i]);
            },
            None => {},
        }
    }
}

proof fn lemma_read_other_after_update<V>(
    fs: Seq<Seq<(Seq<char>, V)>>,
    key: Seq<char>,
    other: Seq<char>,
    v: V,
)
    requires
        other != key,
        fs.len() > 0,
    ensures
        read_frames(update_frames(fs, key, v), other) == read_frames(fs, other),
    decreases fs.len(),
{
    let f = fs[0];
    match position(f, key, 0) {
        Some(i) => {
            lemma_position_found(f, key, 0);
            let g = f.update(i, (key, v));
            lemma_position_same_keys(f, g, other, 0);
            let us = fs.update(0, g);
            assert(us[0] == g);
            assert(us.drop_first() =~= fs.drop_first());
            match position(f, other, 0) {
                Some(j) => {
                    lemma_position_found(f, other, 0);
                    assert(j != i);
                    assert(g[j] == f[j]);
                },
                None => {},
            }
        },
        None => {
            let us = seq![f] + update_frames(fs.drop_first(), key, v);
            assert(us[0] == f);
            assert(us.drop_first() =~= update_frames(fs.drop_first(), key, v));
            if fs.len() > 1 {
                lemma_read_other_after_update(fs.drop_first(), key, other, v);
            } else {
                assert(fs.drop_first() =~= Seq::<Seq<(Seq<char>, V)>>::empty());
            }
        },
    }
}

/// A scope just opened binds nothing: every name reads as it did around it.
pub proof fn lemma_read_in_new_scope<V>(fs: Seq<Seq<(Seq<char>, V)>>, key: Seq<char>)
    ensures
        read_frames(seq![Seq::<(Seq<char>, V)>::empty()] + fs, key) == read_frames(fs, key),
{
    let gs = seq![Seq::<(Seq<char>, V)>::empty()] + fs;
    assert(gs[0] =~= Seq::<(Seq<char>, V)>::empty());
    assert(gs.drop_first() =~= fs);
}

/// Leaving a scope just opened gives back the scopes there were.
pub proof fn lemma_leave_after_enter<V>(fs: Seq<Seq<(Seq<char>, V)>>)
    ensures
        (seq![Seq::<(Seq<char>, V)>::empty()] + fs).drop_first() == fs,
{
    assert((seq![Seq::<(Seq<char>, V)>::empty()] + fs).drop_first() =~= fs);
}

impl<V> Scope<V> {
    /// The outermost scope, with no variables.
    pub fn new_root() -> (r: Self)
        ensures
            frames(r) == seq![Seq::<(Seq<char>, V)>::empty()],
            r.root,
    {
        let r = Scope { up: None, root: true, vars: Vec::new() };
        proof {
            assert(frame(r.vars@) =~= Seq::<(Seq<char>, V)>::empty());
            assert(frames(r) =~= seq![Seq::<(Seq<char>, V)>::empty()]);
        }
        r
    }

    /// Opens a new scope inside this one.
    pub fn enter(&mut self)
        ensures
            frames(*final(self)) == seq![Seq::<(Seq<char>, V)>::empty()] + frames(*old(self)),
            final(self).up is Some,
            !final(self).root,
    {
        let mut parent = Scope { up: None, root: false, vars: Vec::new() };
        std::mem::swap(self, &mut parent);
        self.up = Some(Box::new(parent));
        proof {
            assert(frame(self.vars@) =~= Seq::<(Seq<char>, V)>::empty());
        }
    }

    /// Closes the current scope and returns to the one around it, if there
    /// is one.
    pub fn leave(&mut self)
        ensures
            old(self).up is Some ==> frames(*final(self)) == frames(*old(self)).drop_first(),
            old(self).up is None ==> *final(self) == *old(self),
    {
        let mut up: Option<Box<Scope<V>>> = None;
        std::mem::swap(&mut up, &mut self.up);
        match up {
            Some(parent) => {
                *self = *parent;
                proof {
                    assert(frames(*old(self)).drop_first() =~= frames(*self));
                }
            },
            None => {},
        }
    }

    /// The value of `var` in the innermost scope that binds it.
    pub fn read_variable(&self, var: &str) -> (r: Option<&V>)
        ensures
            r is Some <==> read_frames(frames(*self), var@) is Some,
            r matches Some(v) ==> read_frames(frames(*self), var@) == Some(*v),
        decreases self,
    {
        let key = String::from_str(var);
        let mut i: usize = 0;
        let ghost f = frame(self.vars@);
        while i < self.vars.len()
            invariant
                i <= self.vars@.len(),
                key@ == var@,
                f == frame(self.vars@),
                position(f, var@, 0) == position(f, var@, i as int),
            decreases self.vars.len() - i,
        {
            if self.vars[i].0 == key {
                proof {
                    assert(frames(*self)[0] == f);
                }
                return Some(&self.vars[i].1);
            }
            i += 1;
        }
        proof {
            assert(frames(*self)[0] == f);
            assert(position(f, var@, 0) is None);
            assert(read_frames(frames(*self), var@) == read_frames(frames(*self).drop_first(), var@));
            assert(frames(*self).drop_first() =~= match self.up {
                Some(b) => frames(*b),
                None => Seq::empty(),
            });
        }
        match &self.up {
            Some(b) => b.read_variable(var),
            None => {
                proof {
                    assert(read_frames(Seq::<Seq<(Seq<char>, V)>>::empty(), var@) is None);
                }
                None
            },
        }
    }

    /// Sets the innermost binding of `key` to `value` where some scope binds
    /// it; otherwise gives `value` back and changes nothing.
    fn assign_existing(&mut self, key: &String, value: V) -> (r: Result<(), V>)
        ensures
            match r {
                Ok(()) => binds(frames(*old(self)), key@) && frames(*final(self)) == update_frames(
                    frames(*old(self)),
                    key@,
                    value,
                ),
                Err(v) => !binds(frames(*old(self)), key@) && v == value && frames(*final(self))
                    == frames(*old(self)),
            },
        decreases *old(self),
    {
        let ghost fs = frames(*self);
        let ghost f = frame(self.vars@);
        proof {
            assert(fs[0] == f);
        }
        let mut i: usize = 0;
        while i < self.vars.len()
            invariant
                i <= self.vars@.len(),
                *self == *old(self),
                f == frame(self.vars@),
                fs == frames(*self),
                position(f, key@, 0) == position(f, key@, i as int),
            decreases self.vars.len() - i,
        {
            if self.vars[i].0 == *key {
                let ghost old_vars = self.vars@;
                self.vars.set(i, (key.clone(), value));
                proof {
                    assert(position(f, key@, i as int) == Some(i as int));
                    assert(binds(fs, key@)) by {
                        assert(position(fs[0], key@, 0) is Some);
                    }
                    assert(frame(self.vars@) =~= f.update(i as int, (key@, value)));
                    assert(frames(*self) =~= fs.update(0, fs[0].update(i as int, (key@, value))));
                }
                return Ok(());
            }
            i += 1;
        }
        proof {
            lemma_binds_split(fs, key@);
        }
        let mut up: Option<Box<Scope<V>>> = None;
        std::mem::swap(&mut up, &mut self.up);
        proof {
            assert(up == old(self).up);
        }
        match up {
            Some(mut parent) => {
                let ghost inner = frames(*parent);
                proof {
                    assert(fs.drop_first() =~= inner);
                    assert(decreases_to!(*old(self) => old(self).up));
                    assert(decreases_to!(old(self).up => *parent));
                }
                let r = parent.assign_existing(key, value);
                self.up = Some(parent);
                proof {
                    assert(frames(*self) =~= seq![f] + frames(*parent));
                }
                r
            },
            None => {
                self.up = None;
                proof {
                    assert(fs.drop_first() =~= Seq::<Seq<(Seq<char>, V)>>::empty());
                    assert(!binds(fs.drop_first(), key@));
                    assert(frames(*self) =~= fs);
                }
                Err(value)
            },
        }
    }

    /// Assigns `value` to `var`: the innermost scope that binds it changes;
    /// where none does, the current scope gains the binding.
    pub fn write_variable(&mut self, var: String, value: V)
        ensures
            frames(*final(self)) == write_frames(frames(*old(self)), var@, value),
    {
        match self.assign_existing(&var, value) {
            Ok(()) => {},
            Err(value) => {
                let ghost fs = frames(*self);
                let ghost k = var@;
                self.vars.push((var, value));
                proof {
                    assert(frame(self.vars@) =~= fs[0].push((k, value)));
                    assert(frames(*self) =~= fs.update(0, fs[0].push((k, value))));
                }
            },
        }
    }
}

} // verus!
