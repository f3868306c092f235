use vstd::prelude::*;
use crate::text::{split_on, split_char, chars_of, lemma_split_on_nonempty};

verus! {

/// The last component of a `/`-separated path.
pub open spec fn file_name(path: Seq<char>) -> Seq<char> {
    split_on(path, '/').last()
}

/// A file name whose extension is `sol`: it ends in `.sol` after a non-empty stem.
pub open spec fn is_source_name(name: Seq<char>) -> bool {
    name.len() > 4 && name.subrange(name.len() - 4, name.len() as int) == ".sol"@
}

pub open spec fn is_source_path_spec(path: Seq<char>) -> bool {
    is_source_name(file_name(path))
}

/// Whether a change to `path` concerns a source file.
pub fn is_source_path(path: &str) -> (r: bool)
    ensures
        r == is_source_path_spec(path@),
{
    let parts = split_char(path, '/');
    proof {
        lemma_split_on_nonempty(path@, '/');
    }
    let last = parts.len() - 1;
    assert(parts@.map_values(|p: String| p@)[last as int] == parts@[last as int]@);
    let name = chars_of(parts[last].as_str());
    let n = name.len();
    if n <= 4 {
        return false;
    }
    proof {
        reveal_strlit(".sol");
    }
    let r = name[n - 4] == '.' && name[n - 3] == 's' && name[n - 2] == 'o' && name[n - 1] == 'l';
    assert(r ==> name@.subrange(n - 4, n as int) =~= ".sol"@);
    assert(name@.subrange(n - 4, n as int) == ".sol"@ ==> r) by {
        if name@.subrange(n - 4, n as int) == ".sol"@ {
            assert(name@.subrange(n - 4, n as int)[0] == name@[n - 4]);
            assert(name@.subrange(n - 4, n as int)[1] == name@[n - 3]);
            assert(name@.subrange(n - 4, n as int)[2] == name@[n - 2]);
            assert(name@.subrange(n - 4, n as int)[3] == name@[n - 1]);
        }
    }
    r
}

/// Whether any of the paths of one file-system event concerns a source file.
pub fn touches_sources(paths: &Vec<String>) -> (r: bool)
    ensures
        r == exists|i: int| 0 <= i < paths@.len() && is_source_path_spec(#[trigger] paths@[i]@),
{
    let mut i: usize = 0;
    while i < paths.len()
        invariant
            i <= paths.len(),
            forall|k: int| 0 <= k < i ==> !is_source_path_spec(#[trigger] paths@[k]@),
        decreases paths.len() - i,
    {
        if is_source_path(paths[i].as_str()) {
            return true;
        }
        i = i + 1;
    }
    false
}

/// Serialises compiles of one root: at most one runs at a time, and changes that
/// arrive while one runs are folded into a single follow-up compile.
pub struct Coalescer {
    pub in_flight: bool,
    pub pending: bool,
}

/// A relevant change: the coalescer after it, and whether a compile starts now.
pub open spec fn on_change_spec(g: Coalescer) -> (Coalescer, bool) {
    if g.in_flight {
        (Coalescer { in_flight: true, pending: true }, false)
    } else {
        (Coalescer { in_flight: true, pending: false }, true)
    }
}

/// The running compile ends: the coalescer after it, and whether a follow-up starts now.
pub open spec fn on_finished_spec(g: Coalescer) -> (Coalescer, bool) {
    if g.pending {
        (Coalescer { in_flight: true, pending: false }, true)
    } else {
        (Coalescer { in_flight: false, pending: false }, false)
    }
}

/// A run of changes, each relevant or not: the coalescer after them, and how many
/// compiles they started.
pub open spec fn changes_spec(g: Coalescer, relevant: Seq<bool>) -> (Coalescer, nat)
    decreases relevant.len(),
{
    if relevant.len() == 0 {
        (g, 0)
    } else {
        let (h, n) = changes_spec(g, relevant.drop_last());
        if relevant.last() {
            let (k, started) = on_change_spec(h);
            (k, n + if started { 1nat } else { 0nat })
        } else {
            (h, n)
        }
    }
}

impl Coalescer {
    /// A coalescer with nothing running.
    pub fn new() -> (r: Coalescer)
        ensures
            r == (Coalescer { in_flight: false, pending: false }),
    {
        Coalescer { in_flight: false, pending: false }
    }

    /// A change concerns the sources. Returns whether the caller starts a compile now;
    /// while one runs, the change is kept for a single follow-up.
    pub fn on_change(&mut self) -> (start: bool)
        ensures
            (*final(self), start) == on_change_spec(*old(self)),
    {
        if self.in_flight {
            self.pending = true;
            false
        } else {
            self.in_flight = true;
            self.pending = false;
            true
        }
    }

    /// The running compile has ended. Returns whether the caller starts the
    /// follow-up compile now.
    pub fn on_finished(&mut self) -> (start: bool)
        requires
            old(self).in_flight,
        ensures
            (*final(self), start) == on_finished_spec(*old(self)),
    {
        if self.pending {
            self.pending = false;
            true
        } else {
            self.in_flight = false;
            false
        }
    }
}

/// Changes that arrive while a compile runs start no compile of their own; when it
/// ends, exactly one follow-up starts if any of them was relevant, and none otherwise;
/// when that follow-up ends in turn, nothing more starts.
pub proof fn lemma_changes_coalesce(relevant: Seq<bool>)
    ensures
        ({
            let (g, n) = changes_spec(Coalescer { in_flight: true, pending: false }, relevant);
            let (h, follow_up) = on_finished_spec(g);
            &&& n == 0
            &&& g.in_flight
            &&& follow_up == (exists|i: int| 0 <= i < relevant.len() && relevant[i])
            &&& (follow_up ==> on_finished_spec(h) == (Coalescer { in_flight: false, pending: false }, false))
        }),
    decreases relevant.len(),
{
    if relevant.len() > 0 {
        let init = relevant.drop_last();
        lemma_changes_coalesce(init);
        if exists|i: int| 0 <= i < init.len() && init[i] {
            let i = choose|i: int| 0 <= i < init.len() && init[i];
            assert(relevant[i]);
        }
        if relevant.last() {
            assert(relevant[relevant.len() - 1]);
        }
        if exists|i: int| 0 <= i < relevant.len() && relevant[i] {
            let i = choose|i: int| 0 <= i < relevant.len() && relevant[i];
            if i < relevant.len() - 1 {
                assert(init[i]);
            }
        }
    }
}

} // verus!
