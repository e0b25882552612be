//! The process-wide job registry: conversion-id to subprocess handle and
//! conversion-id to claimed output path.
//!
//! The registry is generic over the handle type: it stores and hands back
//! handles without inspecting them, so the surrounding runtime can keep
//! real child-process handles here while every registry operation is
//! verified.  Cancellation and shutdown return the handles to terminate
//! and the paths to delete; performing those operating-system actions is
//! the caller's part.

use vstd::prelude::*;
use crate::strutil;

verus! {

/// Association-list lookup: the value of the last entry with this key.
pub open spec fn lookup<T>(s: Seq<(String, T)>, id: Seq<char>) -> Option<T>
    decreases s.len(),
{
    if s.len() == 0 {
        None
    } else if s.last().0@ == id {
        Some(s.last().1)
    } else {
        lookup(s.drop_last(), id)
    }
}

/// No two entries share a key.
pub open spec fn distinct_keys<T>(s: Seq<(String, T)>) -> bool {
    forall|i: int, j: int| 0 <= i < j < s.len() ==> s[i].0@ != s[j].0@
}

proof fn lemma_lookup_absent<T>(s: Seq<(String, T)>, id: Seq<char>)
    requires
        forall|j: int| 0 <= j < s.len() ==> (#[trigger] s[j]).0@ != id,
    ensures
        lookup(s, id) is None,
    decreases s.len(),
{
    if s.len() > 0 {
        assert(s.last() == s[s.len() - 1]);
        assert(forall|j: int| 0 <= j < s.drop_last().len() ==> (#[trigger] s.drop_last()[j]).0@
            != id);
        lemma_lookup_absent(s.drop_last(), id);
    }
}

proof fn lemma_lookup_index<T>(s: Seq<(String, T)>, id: Seq<char>, i: int)
    requires
        distinct_keys(s),
        0 <= i < s.len(),
        s[i].0@ == id,
    ensures
        lookup(s, id) == Some(s[i].1),
    decreases s.len(),
{
    assert(s.last() == s[s.len() - 1]);
    if i == s.len() - 1 {
    } else {
        assert(s[s.len() - 1].0@ != id);
        assert(forall|j: int| 0 <= j < s.drop_last().len() ==> s.drop_last()[j] == s[j]);
        lemma_lookup_index(s.drop_last(), id, i);
    }
}

proof fn lemma_lookup_remove<T>(s: Seq<(String, T)>, i: int, x: Seq<char>)
    requires
        distinct_keys(s),
        0 <= i < s.len(),
        s[i].0@ != x,
    ensures
        lookup(s.remove(i), x) == lookup(s, x),
    decreases s.len(),
{
    let t = s.remove(i);
    if s.len() == 1 {
        assert(t.len() == 0);
        lemma_lookup_absent(t, x);
    } else if i == s.len() - 1 {
        assert(t =~= s.drop_last());
        if s.last().0@ == x {
            assert(s[i].0@ == x);
        } else {
        }
    } else {
        assert(t.last() == s.last());
        if s.last().0@ == x {
        } else {
            assert(t.drop_last() =~= s.drop_last().remove(i));
            assert(forall|j: int| 0 <= j < s.drop_last().len() ==> s.drop_last()[j] == s[j]);
            lemma_lookup_remove(s.drop_last(), i, x);
        }
    }
}

proof fn lemma_lookup_push<T>(s: Seq<(String, T)>, e: (String, T), x: Seq<char>)
    ensures
        e.0@ == x ==> lookup(s.push(e), x) == Some(e.1),
        e.0@ != x ==> lookup(s.push(e), x) == lookup(s, x),
{
    assert(s.push(e).last() == e);
    assert(s.push(e).drop_last() =~= s);
}

proof fn lemma_distinct_remove<T>(s: Seq<(String, T)>, i: int)
    requires
        distinct_keys(s),
        0 <= i < s.len(),
    ensures
        distinct_keys(s.remove(i)),
{
    let t = s.remove(i);
    assert forall|a: int, b: int| 0 <= a < b < t.len() implies t[a].0@ != t[b].0@ by {
        let sa = if a < i {
            a
        } else {
            a + 1
        };
        let sb = if b < i {
            b
        } else {
            b + 1
        };
        assert(t[a] == s[sa]);
        assert(t[b] == s[sb]);
    }
}

/// The registry of in-flight jobs: subprocess handles and claimed output
/// paths, both keyed by the caller-supplied conversion id.
pub struct Supervisor<H> {
    procs: Vec<(String, H)>,
    paths: Vec<(String, String)>,
}

impl<H> Supervisor<H> {
    /// Both maps have at most one entry per conversion id.
    pub closed spec fn wf(&self) -> bool {
        distinct_keys(self.procs@) && distinct_keys(self.paths@)
    }

    /// The subprocess handle tracked under `id`.
    pub closed spec fn proc_of(&self, id: Seq<char>) -> Option<H> {
        lookup(self.procs@, id)
    }

    /// The claimed output path tracked under `id`.
    pub closed spec fn path_of(&self, id: Seq<char>) -> Option<Seq<char>> {
        match lookup(self.paths@, id) {
            Some(p) => Some(p@),
            None => None,
        }
    }

    /// All tracked handles, in registration order.
    pub closed spec fn handles(&self) -> Seq<H> {
        self.procs@.map_values(|e: (String, H)| e.1)
    }

    /// All tracked claimed paths, in registration order.
    pub closed spec fn claimed_paths(&self) -> Seq<Seq<char>> {
        self.paths@.map_values(|e: (String, String)| e.1@)
    }

    pub closed spec fn proc_count(&self) -> nat {
        self.procs@.len()
    }

    pub closed spec fn path_count(&self) -> nat {
        self.paths@.len()
    }

    /// Creates an empty registry.
    pub fn new() -> (r: Self)
        ensures
            r.wf(),
            r.proc_count() == 0,
            r.path_count() == 0,
            forall|id: Seq<char>| r.proc_of(id) is None,
            forall|id: Seq<char>| r.path_of(id) is None,
    {
        let r = Supervisor { procs: Vec::new(), paths: Vec::new() };
        r
    }

    /// Finds the index of `id` in `v`, if present.
    fn find_key_proc(v: &Vec<(String, H)>, id: &str) -> (r: Option<usize>)
        ensures
            match r {
                Some(i) => i < v@.len() && v@[i as int].0@ == id@,
                None => forall|j: int| 0 <= j < v@.len() ==> (#[trigger] v@[j]).0@ != id@,
            },
    {
        let mut i: usize = 0;
        while i < v.len()
            invariant
                i <= v@.len(),
                forall|j: int| 0 <= j < i ==> (#[trigger] v@[j]).0@ != id@,
            decreases v@.len() - i,
        {
            if strutil::str_eq(v[i].0.as_str(), id) {
                return Some(i);
            }
            i = i + 1;
        }
        None
    }

    fn find_key_path(v: &Vec<(String, String)>, id: &str) -> (r: Option<usize>)
        ensures
            match r {
                Some(i) => i < v@.len() && v@[i as int].0@ == id@,
                None => forall|j: int| 0 <= j < v@.len() ==> (#[trigger] v@[j]).0@ != id@,
            },
    {
        let mut i: usize = 0;
        while i < v.len()
            invariant
                i <= v@.len(),
                forall|j: int| 0 <= j < i ==> (#[trigger] v@[j]).0@ != id@,
            decreases v@.len() - i,
        {
            if strutil::str_eq(v[i].0.as_str(), id) {
                return Some(i);
            }
            i = i + 1;
        }
        None
    }

    /// Tracks a subprocess handle under `id`, replacing any earlier handle
    /// registered under the same id.
    pub fn register_process(&mut self, id: String, handle: H)
        requires
            old(self).wf(),
        ensures
            final(self).wf(),
            final(self).proc_of(id@) == Some(handle),
            forall|x: Seq<char>| x != id@ ==> final(self).proc_of(x) == old(self).proc_of(x),
            forall|x: Seq<char>| final(self).path_of(x) == old(self).path_of(x),
    {
        let ghost before = self.procs@;
        match Self::find_key_proc(&self.procs, id.as_str()) {
            Some(i) => {
                proof {
                    lemma_distinct_remove(before, i as int);
                }
                let _ = self.procs.remove(i);
                proof {
                    assert forall|x: Seq<char>| x != id@ implies lookup(self.procs@, x) == lookup(
                        before,
                        x,
                    ) by {
                        lemma_lookup_remove(before, i as int, x);
                    }
                }
            },
            None => {},
        }
        let ghost mid = self.procs@;
        proof {
            assert(forall|j: int| 0 <= j < mid.len() ==> (#[trigger] mid[j]).0@ != id@) by {
                if exists|j: int| 0 <= j < mid.len() && (#[trigger] mid[j]).0@ == id@ {
                    let j = choose|j: int| 0 <= j < mid.len() && (#[trigger] mid[j]).0@ == id@;
                    assert(false);
                }
            }
        }
        self.procs.push((id, handle));
        proof {
            let e = self.procs@.last();
            assert(self.procs@.drop_last() =~= mid);
            assert forall|a: int, b: int|
                0 <= a < b < self.procs@.len() implies self.procs@[a].0@ != self.procs@[b].0@ by {
                if b == self.procs@.len() - 1 {
                    assert(self.procs@[a] == mid[a]);
                } else {
                    assert(self.procs@[a] == mid[a]);
                    assert(self.procs@[b] == mid[b]);
                }
            }
            lemma_lookup_push(mid, e, id@);
            assert forall|x: Seq<char>| x != id@ implies final(self).proc_of(x) == old(
                self,
            ).proc_of(x) by {
                lemma_lookup_push(mid, e, x);
            }
        }
    }

    /// Tracks a claimed output path under `id`, replacing any earlier path
    /// registered under the same id.
    pub fn register_output_path(&mut self, id: String, path: String)
        requires
            old(self).wf(),
        ensures
            final(self).wf(),
            final(self).path_of(id@) == Some(path@),
            forall|x: Seq<char>| x != id@ ==> final(self).path_of(x) == old(self).path_of(x),
            forall|x: Seq<char>| final(self).proc_of(x) == old(self).proc_of(x),
    {
        let ghost before = self.paths@;
        match Self::find_key_path(&self.paths, id.as_str()) {
            Some(i) => {
                proof {
                    lemma_distinct_remove(before, i as int);
                }
                let _ = self.paths.remove(i);
                proof {
                    assert forall|x: Seq<char>| x != id@ implies lookup(self.paths@, x) == lookup(
                        before,
                        x,
                    ) by {
                        lemma_lookup_remove(before, i as int, x);
                    }
                }
            },
            None => {},
        }
        let ghost mid = self.paths@;
        proof {
            assert(forall|j: int| 0 <= j < mid.len() ==> (#[trigger] mid[j]).0@ != id@) by {
                if exists|j: int| 0 <= j < mid.len() && (#[trigger] mid[j]).0@ == id@ {
                    let j = choose|j: int| 0 <= j < mid.len() && (#[trigger] mid[j]).0@ == id@;
                    assert(false);
                }
            }
        }
        self.paths.push((id, path));
        proof {
            let e = self.paths@.last();
            assert(self.paths@.drop_last() =~= mid);
            assert forall|a: int, b: int|
                0 <= a < b < self.paths@.len() implies self.paths@[a].0@ != self.paths@[b].0@ by {
                if b == self.paths@.len() - 1 {
                    assert(self.paths@[a] == mid[a]);
                } else {
                    assert(self.paths@[a] == mid[a]);
                    assert(self.paths@[b] == mid[b]);
                }
            }
            lemma_lookup_push(mid, e, id@);
            assert forall|x: Seq<char>| x != id@ implies final(self).path_of(x) == old(
                self,
            ).path_of(x) by {
                lemma_lookup_push(mid, e, x);
            }
        }
    }

    /// Stops tracking and returns the handle registered under `id`.
    pub fn remove_process(&mut self, id: &str) -> (r: Option<H>)
        requires
            old(self).wf(),
        ensures
            final(self).wf(),
            r == old(self).proc_of(id@),
            final(self).proc_of(id@) is None,
            forall|x: Seq<char>| x != id@ ==> final(self).proc_of(x) == old(self).proc_of(x),
            forall|x: Seq<char>| final(self).path_of(x) == old(self).path_of(x),
    {
        let ghost before = self.procs@;
        match Self::find_key_proc(&self.procs, id) {
            Some(i) => {
                proof {
                    lemma_lookup_index(before, id@, i as int);
                    lemma_distinct_remove(before, i as int);
                }
                let e = self.procs.remove(i);
                proof {
                    assert forall|x: Seq<char>| x != id@ implies lookup(self.procs@, x) == lookup(
                        before,
                        x,
                    ) by {
                        lemma_lookup_remove(before, i as int, x);
                    }
                    assert(forall|j: int|
                        0 <= j < self.procs@.len() ==> (#[trigger] self.procs@[j]).0@ != id@) by {
                        assert forall|j: int|
                            0 <= j < self.procs@.len() implies (#[trigger] self.procs@[j]).0@
                            != id@ by {
                            let sj = if j < i {
                                j
                            } else {
                                j + 1
                            };
                            assert(self.procs@[j] == before[sj]);
                            if before[sj].0@ == id@ {
                                if sj < i {
                                    assert(before[sj].0@ != before[i as int].0@);
                                } else {
                                    assert(before[i as int].0@ != before[sj].0@);
                                }
                            }
                        }
                    }
                    lemma_lookup_absent(self.procs@, id@);
                }
                Some(e.1)
            },
            None => {
                proof {
                    lemma_lookup_absent(before, id@);
                }
                None
            },
        }
    }

    /// Stops tracking and returns the claimed output path registered under
    /// `id`.
    pub fn remove_output_path(&mut self, id: &str) -> (r: Option<String>)
        requires
            old(self).wf(),
        ensures
            final(self).wf(),
            match r {
                Some(p) => old(self).path_of(id@) == Some(p@),
                None => old(self).path_of(id@) is None,
            },
            final(self).path_of(id@) is None,
            forall|x: Seq<char>| x != id@ ==> final(self).path_of(x) == old(self).path_of(x),
            forall|x: Seq<char>| final(self).proc_of(x) == old(self).proc_of(x),
    {
        let ghost before = self.paths@;
        match Self::find_key_path(&self.paths, id) {
            Some(i) => {
                proof {
                    lemma_lookup_index(before, id@, i as int);
                    lemma_distinct_remove(before, i as int);
                }
                let e = self.paths.remove(i);
                proof {
                    assert forall|x: Seq<char>| x != id@ implies lookup(self.paths@, x) == lookup(
                        before,
                        x,
                    ) by {
                        lemma_lookup_remove(before, i as int, x);
                    }
                    assert(forall|j: int|
                        0 <= j < self.paths@.len() ==> (#[trigger] self.paths@[j]).0@ != id@) by {
                        assert forall|j: int|
                            0 <= j < self.paths@.len() implies (#[trigger] self.paths@[j]).0@
                            != id@ by {
                            let sj = if j < i {
                                j
                            } else {
                                j + 1
                            };
                            assert(self.paths@[j] == before[sj]);
                            if before[sj].0@ == id@ {
                                if sj < i {
                                    assert(before[sj].0@ != before[i as int].0@);
                                } else {
                                    assert(before[i as int].0@ != before[sj].0@);
                                }
                            }
                        }
                    }
                    lemma_lookup_absent(self.paths@, id@);
                }
                Some(e.1)
            },
            None => {
                proof {
                    lemma_lookup_absent(before, id@);
                }
                None
            },
        }
    }

    /// Cancels a job: stops tracking `id` in both maps and returns the
    /// handle to terminate and the claimed output path to delete.
    /// Cancelling an unknown id is a no-op success.
    pub fn kill_process(&mut self, id: &str) -> (r: (Option<H>, Option<String>))
        requires
            old(self).wf(),
        ensures
            final(self).wf(),
            r.0 == old(self).proc_of(id@),
            match r.1 {
                Some(p) => old(self).path_of(id@) == Some(p@),
                None => old(self).path_of(id@) is None,
            },
            final(self).proc_of(id@) is None,
            final(self).path_of(id@) is None,
            forall|x: Seq<char>| x != id@ ==> final(self).proc_of(x) == old(self).proc_of(x),
            forall|x: Seq<char>| x != id@ ==> final(self).path_of(x) == old(self).path_of(x),
    {
        let h = self.remove_process(id);
        let p = self.remove_output_path(id);
        (h, p)
    }

    /// Shutdown sweep: stops tracking everything and returns every handle
    /// to terminate and every claimed path to delete.
    pub fn kill_all(&mut self) -> (r: (Vec<H>, Vec<String>))
        requires
            old(self).wf(),
        ensures
            final(self).wf(),
            final(self).proc_count() == 0,
            final(self).path_count() == 0,
            forall|id: Seq<char>| final(self).proc_of(id) is None,
            forall|id: Seq<char>| final(self).path_of(id) is None,
            r.0@ == old(self).handles(),
            r.1@.map_values(|p: String| p@) == old(self).claimed_paths(),
    {
        let ghost procs0 = self.procs@;
        let ghost paths0 = self.paths@;
        let mut handles: Vec<H> = Vec::new();
        while self.procs.len() > 0
            invariant
                self.paths@ == paths0,
                handles@.len() <= procs0.len(),
                self.procs@ =~= procs0.subrange(handles@.len() as int, procs0.len() as int),
                handles@ =~= procs0.subrange(0, handles@.len() as int).map_values(
                    |e: (String, H)| e.1,
                ),
            decreases self.procs@.len(),
        {
            let e = self.procs.remove(0);
            handles.push(e.1);
            proof {
                let k = handles@.len() as int;
                assert(procs0.subrange(0, k).drop_last() =~= procs0.subrange(0, k - 1));
                assert(handles@ =~= procs0.subrange(0, k).map_values(|e: (String, H)| e.1));
            }
        }
        let mut out_paths: Vec<String> = Vec::new();
        while self.paths.len() > 0
            invariant
                self.procs@.len() == 0,
                out_paths@.len() <= paths0.len(),
                self.paths@ =~= paths0.subrange(out_paths@.len() as int, paths0.len() as int),
                out_paths@ =~= paths0.subrange(0, out_paths@.len() as int).map_values(
                    |e: (String, String)| e.1,
                ),
            decreases self.paths@.len(),
        {
            let e = self.paths.remove(0);
            out_paths.push(e.1);
            proof {
                let k = out_paths@.len() as int;
                assert(paths0.subrange(0, k).drop_last() =~= paths0.subrange(0, k - 1));
                assert(out_paths@ =~= paths0.subrange(0, k).map_values(|e: (String, String)| e.1));
            }
        }
        proof {
            assert(procs0.subrange(0, procs0.len() as int) =~= procs0);
            assert(paths0.subrange(0, paths0.len() as int) =~= paths0);
            assert(handles@ =~= old(self).handles());
            assert(out_paths@.map_values(|p: String| p@) =~= old(self).claimed_paths()) by {
                assert(out_paths@ =~= paths0.map_values(|e: (String, String)| e.1));
            }
        }
        (handles, out_paths)
    }
}

} // verus!
