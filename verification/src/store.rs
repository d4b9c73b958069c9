use vstd::prelude::*;

use crate::model::{
    contains_name, index_of_name, lemma_first_index_unique, lemma_index_of_name, string_eq,
    unique_names, Configuration, DisplayConfigState, Preset,
};

verus! {

/// The ways a store operation can fail. Each operation's contract says
/// exactly which variant comes on which input.
#[derive(Debug, PartialEq, Eq, Structural, Clone, Copy)]
pub enum StoreError {
    NameCollision,
    NotFound,
    SameName,
}

/// What `save` does: append under a fresh name; replace only the stored
/// snapshot under a taken name with `force`; fail with `NameCollision` and
/// change nothing under a taken name without it.
pub open spec fn save_post(
    s0: Seq<Preset>,
    s1: Seq<Preset>,
    name: Seq<char>,
    snapshot: DisplayConfigState,
    force: bool,
    r: Result<(), StoreError>,
) -> bool {
    match index_of_name(s0, name) {
        None => {
            &&& r == Ok::<(), StoreError>(())
            &&& s1.len() == s0.len() + 1
            &&& (forall|k: int| 0 <= k < s0.len() ==> s1[k] == s0[k])
            &&& s1.last().name@ == name
            &&& s1.last().display_config == snapshot
        },
        Some(i) => {
            if force {
                &&& r == Ok::<(), StoreError>(())
                &&& s1.len() == s0.len()
                &&& (forall|k: int| 0 <= k < s0.len() && k != i ==> s1[k] == s0[k])
                &&& s1[i].name == s0[i].name
                &&& s1[i].display_config == snapshot
            } else {
                &&& r == Err::<(), StoreError>(StoreError::NameCollision)
                &&& s1 == s0
            }
        },
    }
}

/// What `delete` does: remove the preset under the name, or fail with
/// `NotFound` and change nothing.
pub open spec fn delete_post(
    s0: Seq<Preset>,
    s1: Seq<Preset>,
    name: Seq<char>,
    r: Result<(), StoreError>,
) -> bool {
    match index_of_name(s0, name) {
        Some(i) => r == Ok::<(), StoreError>(()) && s1 == s0.remove(i),
        None => r == Err::<(), StoreError>(StoreError::NotFound) && s1 == s0,
    }
}

/// What `rename` does: a usage error when the names are the same, `NotFound`
/// when the source is absent, `NameCollision` (and no change) when the
/// target is taken without `force`; otherwise the source preset keeps its
/// place and content but takes the new name, and with `force` the preset
/// that held the target name is deleted.
pub open spec fn rename_post(
    s0: Seq<Preset>,
    s1: Seq<Preset>,
    name: Seq<char>,
    new_name: Seq<char>,
    force: bool,
    r: Result<(), StoreError>,
) -> bool {
    if name == new_name {
        r == Err::<(), StoreError>(StoreError::SameName) && s1 == s0
    } else {
        match index_of_name(s0, name) {
            None => r == Err::<(), StoreError>(StoreError::NotFound) && s1 == s0,
            Some(p) => match index_of_name(s0, new_name) {
                None => {
                    &&& r == Ok::<(), StoreError>(())
                    &&& s1.len() == s0.len()
                    &&& (forall|k: int| 0 <= k < s0.len() && k != p ==> s1[k] == s0[k])
                    &&& s1[p].name@ == new_name
                    &&& s1[p].display_config == s0[p].display_config
                },
                Some(t) => {
                    if force {
                        let p2 = if t < p {
                            p - 1
                        } else {
                            p
                        };
                        &&& r == Ok::<(), StoreError>(())
                        &&& s1.len() == s0.len() - 1
                        &&& s1 == s0.update(p, s1[p2]).remove(t)
                        &&& s1[p2].name@ == new_name
                        &&& s1[p2].display_config == s0[p].display_config
                    } else {
                        &&& r == Err::<(), StoreError>(StoreError::NameCollision)
                        &&& s1 == s0
                    }
                },
            },
        }
    }
}

/// Position of the first preset under `name`, if any.
fn find_position(presets: &Vec<Preset>, name: &String) -> (r: Option<usize>)
    ensures
        match r {
            Some(i) => index_of_name(presets@, name@) == Some(i as int),
            None => index_of_name(presets@, name@) is None,
        },
{
    let ghost s = presets@;
    proof {
        lemma_index_of_name(s, name@);
    }
    let mut i: usize = 0;
    while i < presets.len()
        invariant
            0 <= i <= s.len(),
            s == presets@,
            forall|k: int| 0 <= k < i ==> s[k].name@ != name@,
        decreases s.len() - i,
    {
        if string_eq(&presets[i].name, name) {
            proof {
                lemma_first_index_unique(s, name@, i as int);
            }
            return Some(i);
        }
        i = i + 1;
    }
    proof {
        lemma_index_of_name(s, name@);
        if index_of_name(s, name@) is Some {
            let j = index_of_name(s, name@)->Some_0;
            assert(s[j].name@ == name@);
            assert(false);
        }
    }
    None
}

impl Configuration {
    /// Stores `snapshot` under `name`: appends a new preset for a fresh
    /// name; for a taken one, replaces only that preset's snapshot when
    /// `force` is set, else fails with `NameCollision` and changes nothing.
    pub fn save(&mut self, name: String, snapshot: DisplayConfigState, force: bool) -> (r: Result<
        (),
        StoreError,
    >)
        ensures
            save_post(old(self).presets@, final(self).presets@, name@, snapshot, force, r),
            unique_names(old(self).presets@) ==> unique_names(final(self).presets@),
    {
        let ghost s0 = self.presets@;
        match find_position(&self.presets, &name) {
            None => {
                proof {
                    lemma_index_of_name(s0, name@);
                }
                self.presets.push(Preset { name, display_config: snapshot });
                proof {
                    let s1 = self.presets@;
                    assert forall|i: int, j: int|
                        unique_names(s0) && 0 <= i < j < s1.len() implies s1[i].name@
                        != s1[j].name@ by {
                        if j < s0.len() {
                        } else {
                            assert(s1[i] == s0[i]);
                        }
                    }
                }
                Ok(())
            },
            Some(i) => {
                proof {
                    lemma_index_of_name(s0, name@);
                }
                if force {
                    let p = self.presets.remove(i);
                    self.presets.insert(i, Preset { name: p.name, display_config: snapshot });
                    proof {
                        let s1 = self.presets@;
                        assert forall|k: int| 0 <= k < s0.len() && k != i implies s1[k]
                            == s0[k] by {
                            assert(s1 =~= s0.remove(i as int).insert(
                                i as int,
                                s1[i as int],
                            ));
                        }
                        assert(s1[i as int].name == s0[i as int].name);
                        assert forall|a: int, b: int|
                            unique_names(s0) && 0 <= a < b < s1.len() implies s1[a].name@
                            != s1[b].name@ by {
                            assert(s1[a].name == (if a == i {
                                s0[a].name
                            } else {
                                s0[a].name
                            }));
                        }
                    }
                    Ok(())
                } else {
                    Err(StoreError::NameCollision)
                }
            },
        }
    }

    /// Removes the preset under `name`; fails with `NotFound` when it is
    /// absent, with no partial effects either way.
    pub fn delete(&mut self, name: &String) -> (r: Result<(), StoreError>)
        ensures
            delete_post(old(self).presets@, final(self).presets@, name@, r),
            unique_names(old(self).presets@) ==> unique_names(final(self).presets@),
    {
        let ghost s0 = self.presets@;
        match find_position(&self.presets, name) {
            Some(i) => {
                proof {
                    lemma_index_of_name(s0, name@);
                }
                self.presets.remove(i);
                proof {
                    let s1 = self.presets@;
                    assert forall|a: int, b: int|
                        unique_names(s0) && 0 <= a < b < s1.len() implies s1[a].name@
                        != s1[b].name@ by {
                        assert(s1[a] == (if a < i { s0[a] } else { s0[a + 1] }));
                        assert(s1[b] == (if b < i { s0[b] } else { s0[b + 1] }));
                    }
                }
                Ok(())
            },
            None => Err(StoreError::NotFound),
        }
    }

    /// Renames the preset under `name` to `new_name`. Renaming to the same
    /// name is a usage error; a taken target name fails with
    /// `NameCollision` unless `force` is set, in which case the preset that
    /// held the target name is deleted and the renamed one keeps its
    /// content.
    pub fn rename(&mut self, name: &String, new_name: &String, force: bool) -> (r: Result<
        (),
        StoreError,
    >)
        ensures
            rename_post(old(self).presets@, final(self).presets@, name@, new_name@, force, r),
            unique_names(old(self).presets@) ==> unique_names(final(self).presets@),
    {
        let ghost s0 = self.presets@;
        if string_eq(name, new_name) {
            return Err(StoreError::SameName);
        }
        let pos = match find_position(&self.presets, name) {
            Some(p) => p,
            None => {
                return Err(StoreError::NotFound);
            },
        };
        proof {
            lemma_index_of_name(s0, name@);
            lemma_index_of_name(s0, new_name@);
        }
        match find_position(&self.presets, new_name) {
            Some(t) => {
                if force {
                    let p = self.presets.remove(pos);
                    self.presets.insert(
                        pos,
                        Preset { name: new_name.clone(), display_config: p.display_config },
                    );
                    let ghost sa = self.presets@;
                    let ghost q = sa[pos as int];
                    proof {
                        assert(sa =~= s0.update(pos as int, q));
                        assert(q.name@ == new_name@);
                        assert(q.display_config == s0[pos as int].display_config);
                        assert(t != pos);
                    }
                    self.presets.remove(t);
                    proof {
                        let s1 = self.presets@;
                        let p2: int = if t < pos {
                            pos - 1
                        } else {
                            pos as int
                        };
                        assert(s1 == sa.remove(t as int));
                        assert(s1[p2] == q);
                        assert(s1 =~= s0.update(pos as int, s1[p2]).remove(t as int));
                        assert forall|a: int, b: int|
                            unique_names(s0) && 0 <= a < b < s1.len() implies s1[a].name@
                            != s1[b].name@ by {
                            let ma: int = if a < t {
                                a
                            } else {
                                a + 1
                            };
                            let mb: int = if b < t {
                                b
                            } else {
                                b + 1
                            };
                            assert(s1[a] == sa[ma]);
                            assert(s1[b] == sa[mb]);
                            assert(ma != t && mb != t);
                            if ma != pos && mb != pos {
                                assert(sa[ma] == s0[ma] && sa[mb] == s0[mb]);
                            } else if ma == pos {
                                assert(sa[mb] == s0[mb]);
                                assert(s0[mb].name@ != new_name@) by {
                                    if s0[mb].name@ == new_name@ {
                                        assert(mb == t);
                                    }
                                }
                            } else {
                                assert(sa[ma] == s0[ma]);
                                assert(s0[ma].name@ != new_name@) by {
                                    if s0[ma].name@ == new_name@ {
                                        assert(ma == t);
                                    }
                                }
                            }
                        }
                    }
                    Ok(())
                } else {
                    Err(StoreError::NameCollision)
                }
            },
            None => {
                let p = self.presets.remove(pos);
                self.presets.insert(
                    pos,
                    Preset { name: new_name.clone(), display_config: p.display_config },
                );
                proof {
                    let s1 = self.presets@;
                    assert(s1 =~= s0.update(pos as int, s1[pos as int]));
                    assert forall|a: int, b: int|
                        unique_names(s0) && 0 <= a < b < s1.len() implies s1[a].name@
                        != s1[b].name@ by {
                        if a != pos && b != pos {
                        } else if a == pos {
                            assert(s1[b] == s0[b]);
                        } else {
                            assert(s1[a] == s0[a]);
                        }
                    }
                }
                Ok(())
            },
        }
    }

    /// The stored preset names, in insertion order, not sorted.
    pub fn list(&self) -> (r: Vec<String>)
        ensures
            r@.len() == self.presets@.len(),
            forall|k: int| 0 <= k < r@.len() ==> (#[trigger] r@[k])@ == self.presets@[k].name@,
    {
        let mut out: Vec<String> = Vec::new();
        let mut i: usize = 0;
        while i < self.presets.len()
            invariant
                0 <= i <= self.presets@.len(),
                out@.len() == i,
                forall|k: int| 0 <= k < i ==> (#[trigger] out@[k])@ == self.presets@[k].name@,
            decreases self.presets@.len() - i,
        {
            out.push(self.presets[i].name.clone());
            i = i + 1;
        }
        out
    }
}

/// Saving twice in a row under one name without `force` fails the second
/// time with `NameCollision` and leaves the store as the first save left
/// it.
pub proof fn lemma_save_twice(
    s0: Seq<Preset>,
    s1: Seq<Preset>,
    s2: Seq<Preset>,
    name: Seq<char>,
    snap1: DisplayConfigState,
    snap2: DisplayConfigState,
    r2: Result<(), StoreError>,
)
    requires
        save_post(s0, s1, name, snap1, false, Ok(())),
        save_post(s1, s2, name, snap2, false, r2),
    ensures
        r2 == Err::<(), StoreError>(StoreError::NameCollision),
        s2 == s1,
{
    lemma_index_of_name(s0, name);
    lemma_index_of_name(s1, name);
    assert(s1.last().name@ == name);
    assert(contains_name(s1, name));
}

/// A forced save after a prior save under the same name replaces only the
/// stored snapshot; the preset's name and place stay.
pub proof fn lemma_save_then_override(
    s0: Seq<Preset>,
    s1: Seq<Preset>,
    s2: Seq<Preset>,
    name: Seq<char>,
    snap1: DisplayConfigState,
    snap2: DisplayConfigState,
    r2: Result<(), StoreError>,
)
    requires
        save_post(s0, s1, name, snap1, false, Ok(())),
        save_post(s1, s2, name, snap2, true, r2),
    ensures
        r2 == Ok::<(), StoreError>(()),
        s2.len() == s1.len(),
        index_of_name(s1, name) is Some,
        s2[index_of_name(s1, name)->Some_0].name@ == name,
        s2[index_of_name(s1, name)->Some_0].display_config == snap2,
        forall|k: int|
            0 <= k < s1.len() && k != index_of_name(s1, name)->Some_0 ==> s2[k] == s1[k],
{
    lemma_index_of_name(s0, name);
    lemma_index_of_name(s1, name);
    assert(s1.last().name@ == name);
    assert(contains_name(s1, name));
}

/// A forced rename onto a taken name merges: afterwards exactly one preset
/// holds the target name, it holds the source's former content, and the
/// source name is gone.
pub proof fn lemma_rename_force_merge(
    s0: Seq<Preset>,
    s1: Seq<Preset>,
    name: Seq<char>,
    new_name: Seq<char>,
    r: Result<(), StoreError>,
)
    requires
        unique_names(s0),
        name != new_name,
        contains_name(s0, name),
        contains_name(s0, new_name),
        rename_post(s0, s1, name, new_name, true, r),
    ensures
        r == Ok::<(), StoreError>(()),
        s1.len() == s0.len() - 1,
        !contains_name(s1, name),
        exists|i: int|
            {
                &&& 0 <= i < s1.len()
                &&& (#[trigger] s1[i]).name@ == new_name
                &&& s1[i].display_config == s0[index_of_name(s0, name)->Some_0].display_config
                &&& forall|k: int| 0 <= k < s1.len() && k != i ==> s1[k].name@ != new_name
            },
{
    lemma_index_of_name(s0, name);
    lemma_index_of_name(s0, new_name);
    let p = index_of_name(s0, name)->Some_0;
    let t = index_of_name(s0, new_name)->Some_0;
    assert(t != p);
    let p2: int = if t < p {
        p - 1
    } else {
        p
    };
    let sa = s0.update(p, s1[p2]);
    assert(s1 == sa.remove(t));
    assert forall|k: int| 0 <= k < s1.len() && k != p2 implies s1[k].name@ != new_name
        && s1[k].name@ != name by {
        let m: int = if k < t {
            k
        } else {
            k + 1
        };
        assert(s1[k] == sa[m]);
        assert(m != t);
        assert(m != p);
        assert(sa[m] == s0[m]);
        if s0[m].name@ == new_name {
            assert(m == t);
        }
        if s0[m].name@ == name {
            assert(m == p);
        }
    }
    assert(s1[p2].name@ == new_name);
    assert(s1[p2].name@ != name);
    assert(0 <= p2 < s1.len());
    assert(!contains_name(s1, name));
    assert((s1[p2]).name@ == new_name && s1[p2].display_config == s0[p].display_config
        && (forall|k: int| 0 <= k < s1.len() && k != p2 ==> s1[k].name@ != new_name));
}

} // verus!
