//! The Registry: which extensions have a live child process, and its handle.
//!
//! The handle type `P` belongs to the host, which polls and kills processes;
//! the Registry decides what each observation does to the table.
use vstd::prelude::*;

verus! {

/// What a non-blocking poll of a tracked process found.
#[derive(Clone, Copy, Debug, PartialEq, Eq, Structural)]
pub enum Poll {
    /// The process has not exited.
    Alive,
    /// The process exited with success.
    ExitedOk,
    /// The process exited otherwise: its exit code, or `None` where a signal
    /// ended it.
    ExitedError(Option<i32>),
    /// The poll itself failed.
    Unreadable,
}

/// The state of an extension's process, as one observation reports it.
#[derive(Clone, Copy, Debug, PartialEq, Eq, Structural)]
pub enum Status {
    Running,
    ExitedOk,
    ExitedError(Option<i32>),
    Unreadable,
    NotTracked,
}

/// The status that observing `id` reports, where `poll` is what polling its
/// handle found.
pub open spec fn status_of<P>(m: Map<Seq<char>, P>, id: Seq<char>, poll: Poll) -> Status {
    if !m.contains_key(id) {
        Status::NotTracked
    } else {
        match poll {
            Poll::Alive => Status::Running,
            Poll::ExitedOk => Status::ExitedOk,
            Poll::ExitedError(code) => Status::ExitedError(code),
            Poll::Unreadable => Status::Unreadable,
        }
    }
}

/// The table after observing `id`: an entry stays only while its process runs.
pub open spec fn observed<P>(m: Map<Seq<char>, P>, id: Seq<char>, poll: Poll) -> Map<
    Seq<char>,
    P,
> {
    if m.contains_key(id) && poll != Poll::Alive {
        m.remove(id)
    } else {
        m
    }
}

/// The table of live child processes, one entry per extension identifier.
pub struct Registry<P> {
    entries: Vec<(String, P)>,
    model: Ghost<Map<Seq<char>, P>>,
}

impl<P> Registry<P> {
    /// The handle of each tracked identifier.
    pub closed spec fn view(&self) -> Map<Seq<char>, P> {
        self.model@
    }

    closed spec fn id_at(&self, i: int) -> Seq<char> {
        self.entries@[i].0@
    }

    /// Each identifier is listed once, and the list holds the table.
    pub closed spec fn wf(&self) -> bool {
        &&& forall|i: int|
            0 <= i < self.entries@.len() ==> self.model@.contains_key(#[trigger] self.id_at(i))
                && self.model@[self.id_at(i)] == self.entries@[i].1
        &&& forall|i: int, j: int|
            0 <= i < j < self.entries@.len() ==> #[trigger] self.id_at(i) != #[trigger] self.id_at(
                j,
            )
        &&& forall|k: Seq<char>| #[trigger]
            self.model@.contains_key(k) ==> exists|i: int|
                0 <= i < self.entries@.len() && self.id_at(i) == k
    }

    /// An empty table: nothing has been started.
    pub fn new() -> (r: Self)
        ensures
            r.wf(),
            r@ == Map::<Seq<char>, P>::empty(),
    {
        Registry { entries: Vec::new(), model: Ghost(Map::empty()) }
    }

    /// The position of `id` in the list.
    fn find(&self, id: &String) -> (r: Option<usize>)
        requires
            self.wf(),
        ensures
            match r {
                Some(i) => i < self.entries@.len() && self.id_at(i as int) == id@,
                None => !self@.contains_key(id@),
            },
    {
        let mut i: usize = 0;
        while i < self.entries.len()
            invariant
                self.wf(),
                i <= self.entries@.len(),
                forall|j: int| 0 <= j < i ==> self.id_at(j) != id@,
            decreases self.entries@.len() - i,
        {
            if self.entries[i].0 == *id {
                return Some(i);
            }
            i = i + 1;
        }
        proof {
            if self@.contains_key(id@) {
                let j = choose|j: int| 0 <= j < self.entries@.len() && self.id_at(j) == id@;
                assert(self.id_at(j) != id@);
            }
        }
        None
    }

    /// Whether `id` has an entry.
    pub fn is_tracked(&self, id: &String) -> (r: bool)
        requires
            self.wf(),
        ensures
            r == self@.contains_key(id@),
    {
        self.find(id).is_some()
    }

    /// The handle tracked for `id`, if any.
    pub fn handle(&self, id: &String) -> (r: Option<&P>)
        requires
            self.wf(),
        ensures
            match r {
                Some(h) => self@.contains_key(id@) && *h == self@[id@],
                None => !self@.contains_key(id@),
            },
    {
        match self.find(id) {
            Some(i) => Some(&self.entries[i].1),
            None => None,
        }
    }

    /// Takes the entry of `id` out of the table, handing back its handle.
    pub fn remove(&mut self, id: &String) -> (r: Option<P>)
        requires
            old(self).wf(),
        ensures
            final(self).wf(),
            final(self)@ == old(self)@.remove(id@),
            match r {
                Some(h) => old(self)@.contains_key(id@) && h == old(self)@[id@],
                None => !old(self)@.contains_key(id@),
            },
    {
        match self.find(id) {
            Some(i) => {
                let (_, h) = self.entries.remove(i);
                self.model = Ghost(self.model@.remove(id@));
                assert forall|j: int| 0 <= j < self.entries@.len() implies #[trigger] self.id_at(j)
                    == old(self).id_at(if j < i { j } else { j + 1 }) && self.entries@[j].1 == old(
                    self,
                ).entries@[if j < i { j } else { j + 1 }].1 && self.id_at(j) != id@ by {
                    if j < i {
                        assert(old(self).id_at(j) != old(self).id_at(i as int));
                    } else {
                        assert(old(self).id_at(i as int) != old(self).id_at(j + 1));
                    }
                }
                assert forall|j1: int, j2: int|
                    0 <= j1 < j2 < self.entries@.len() implies #[trigger] self.id_at(j1)
                    != #[trigger] self.id_at(j2) by {
                    let o1 = if j1 < i { j1 } else { j1 + 1 };
                    let o2 = if j2 < i { j2 } else { j2 + 1 };
                    assert(old(self).id_at(o1) != old(self).id_at(o2));
                }
                assert forall|k: Seq<char>| #[trigger]
                    self.model@.contains_key(k) implies exists|j: int|
                    0 <= j < self.entries@.len() && self.id_at(j) == k by {
                    let j = choose|j: int| 0 <= j < old(self).entries@.len() && old(self).id_at(j) == k;
                    if j < i {
                        assert(self.id_at(j) == k);
                    } else {
                        assert(self.id_at(j - 1) == k);
                    }
                }
                assert(self.model@ =~= old(self)@.remove(id@));
                Some(h)
            },
            None => {
                assert(self.model@ =~= old(self)@.remove(id@));
                None
            },
        }
    }

    /// Adds an entry for `id`, which has none.
    pub fn insert(&mut self, id: String, handle: P)
        requires
            old(self).wf(),
            !old(self)@.contains_key(id@),
        ensures
            final(self).wf(),
            final(self)@ == old(self)@.insert(id@, handle),
    {
        let ghost key = id@;
        self.model = Ghost(self.model@.insert(key, handle));
        self.entries.push((id, handle));
        let ghost n = old(self).entries@.len() as int;
        assert(self.id_at(n) == key);
        assert forall|i: int| 0 <= i < n implies #[trigger] self.id_at(i) == old(self).id_at(i)
            && self.entries@[i].1 == old(self).entries@[i].1 && old(self).id_at(i) != key by {
            assert(old(self)@.contains_key(old(self).id_at(i)));
        }
        assert forall|i: int, j: int|
            0 <= i < j < self.entries@.len() implies #[trigger] self.id_at(i) != #[trigger] self.id_at(
            j,
        ) by {
            if j < n {
                assert(old(self).id_at(i) != old(self).id_at(j));
            }
        }
        assert forall|k: Seq<char>| #[trigger]
            self.model@.contains_key(k) implies exists|j: int|
            0 <= j < self.entries@.len() && self.id_at(j) == k by {
            if k != key {
                let j = choose|j: int| 0 <= j < n && old(self).id_at(j) == k;
                assert(self.id_at(j) == k);
            }
        }
    }

    /// Records an observation of `id`, where `poll` is what polling its handle
    /// found (it is not read where `id` has no entry). The entry stays only
    /// while the process runs.
    pub fn is_running(&mut self, id: &String, poll: Poll) -> (r: Status)
        requires
            old(self).wf(),
        ensures
            final(self).wf(),
            r == status_of(old(self)@, id@, poll),
            final(self)@ == observed(old(self)@, id@, poll),
    {
        if !self.is_tracked(id) {
            return Status::NotTracked;
        }
        match poll {
            Poll::Alive => Status::Running,
            Poll::ExitedOk => {
                self.remove(id);
                Status::ExitedOk
            },
            Poll::ExitedError(code) => {
                self.remove(id);
                Status::ExitedError(code)
            },
            Poll::Unreadable => {
                self.remove(id);
                Status::Unreadable
            },
        }
    }

    /// Empties the table, handing back every entry.
    pub fn drain(&mut self) -> (r: Vec<(String, P)>)
        requires
            old(self).wf(),
        ensures
            final(self).wf(),
            final(self)@ == Map::<Seq<char>, P>::empty(),
            forall|i: int|
                0 <= i < r@.len() ==> old(self)@.contains_key(#[trigger] r@[i].0@) && old(
                    self,
                )@[r@[i].0@] == r@[i].1,
            forall|i: int, j: int| 0 <= i < j < r@.len() ==> #[trigger] r@[i].0@ != #[trigger] r@[j].0@,
            forall|k: Seq<char>| #[trigger]
                old(self)@.contains_key(k) ==> exists|i: int| 0 <= i < r@.len() && r@[i].0@ == k,
    {
        let mut out: Vec<(String, P)> = Vec::new();
        std::mem::swap(&mut out, &mut self.entries);
        self.model = Ghost(Map::empty());
        assert(out@ == old(self).entries@);
        assert forall|i: int| 0 <= i < out@.len() implies old(self)@.contains_key(
            #[trigger] out@[i].0@,
        ) && old(self)@[out@[i].0@] == out@[i].1 by {
            assert(out@[i].0@ == old(self).id_at(i));
        }
        assert forall|i: int, j: int| 0 <= i < j < out@.len() implies #[trigger] out@[i].0@
            != #[trigger] out@[j].0@ by {
            assert(old(self).id_at(i) != old(self).id_at(j));
        }
        assert forall|k: Seq<char>| #[trigger]
            old(self)@.contains_key(k) implies exists|i: int| 0 <= i < out@.len() && out@[i].0@ == k by {
            let i = choose|i: int| 0 <= i < out@.len() && old(self).id_at(i) == k;
            assert(out@[i].0@ == k);
        }
        out
    }
}

} // verus!
