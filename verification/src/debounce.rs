//! Per-document diagnostics generations.
//!
//! Every change bumps a per-URI counter; the debounced task it spawns
//! remembers the value it was given and publishes only when that value is
//! still current when it wakes.  The laws below pin the two guarantees the
//! scheme gives: of several tasks racing on one document only the one from
//! the newest change publishes, and published generations never go
//! backwards.

use vstd::prelude::*;
use vstd::string::*;

use crate::text::str_eq;

verus! {

/// The per-URI generation counters.
pub struct DiagnosticsGeneration {
    pub entries: Vec<(String, u64)>,
}

/// At most one counter per URI.
pub open spec fn gens_wf(s: Seq<(String, u64)>) -> bool {
    forall|i: int, j: int| 0 <= i < j < s.len() ==> (#[trigger] s[i]).0@ != (#[trigger] s[j]).0@
}

/// The counter recorded for a URI; zero when none is.
pub open spec fn spec_gen_of(s: Seq<(String, u64)>, uri: Seq<char>) -> u64
    decreases s.len(),
{
    if s.len() == 0 {
        0
    } else if s[0].0@ == uri {
        s[0].1
    } else {
        spec_gen_of(s.drop_first(), uri)
    }
}

impl DiagnosticsGeneration {
    pub open spec fn wf(&self) -> bool {
        gens_wf(self.entries@)
    }

    pub open spec fn spec_gen(&self, uri: Seq<char>) -> u64 {
        spec_gen_of(self.entries@, uri)
    }

    pub fn new() -> (r: DiagnosticsGeneration)
        ensures
            r.wf(),
            forall|u: Seq<char>| r.spec_gen(u) == 0,
    {
        DiagnosticsGeneration { entries: Vec::new() }
    }

    fn position_of(&self, uri: &str) -> (r: Option<usize>)
        requires
            self.wf(),
        ensures
            match r {
                Some(i) => 0 <= i < self.entries@.len() && self.entries@[i as int].0@ == uri@
                    && self.spec_gen(uri@) == self.entries@[i as int].1,
                None => (forall|i: int|
                    0 <= i < self.entries@.len() ==> (#[trigger] self.entries@[i]).0@ != uri@)
                    && self.spec_gen(uri@) == 0,
            },
    {
        let n = self.entries.len();
        let mut i: usize = 0;
        proof {
            assert(self.entries@.skip(0) =~= self.entries@);
        }
        while i < n
            invariant
                self.wf(),
                n == self.entries@.len(),
                i <= n,
                forall|k: int| 0 <= k < i ==> (#[trigger] self.entries@[k]).0@ != uri@,
                spec_gen_of(self.entries@.skip(i as int), uri@) == self.spec_gen(uri@),
            decreases n - i,
        {
            proof {
                assert(self.entries@.skip(i as int)[0] == self.entries@[i as int]);
                assert(self.entries@.skip(i as int).drop_first() =~= self.entries@.skip(i + 1));
            }
            if str_eq(self.entries[i].0.as_str(), uri) {
                return Some(i);
            }
            i += 1;
        }
        None
    }

    /// A change arrived: advance the URI's counter and hand out the new
    /// value, the one the scheduled task must present to publish.
    pub fn record_edit(&mut self, uri: &str) -> (g: u64)
        requires
            old(self).wf(),
            old(self).spec_gen(uri@) < u64::MAX,
        ensures
            final(self).wf(),
            g == old(self).spec_gen(uri@) + 1,
            final(self).spec_gen(uri@) == g,
            forall|u: Seq<char>| u != uri@ ==> final(self).spec_gen(u) == old(self).spec_gen(u),
    {
        let ghost pre = self.entries@;
        match self.position_of(uri) {
            Some(i) => {
                let g = self.entries[i].1 + 1;
                let mut u = String::new();
                u.append(uri);
                proof {
                    assert(u@ =~= uri@);
                }
                self.entries[i] = (u, g);
                proof {
                    assert forall|a: int, b: int|
                        0 <= a < b < self.entries@.len() implies (#[trigger] self.entries@[a]).0@
                        != (#[trigger] self.entries@[b]).0@ by {
                        assert(pre[a].0@ != pre[b].0@);
                        if a != i && b != i {
                            assert(self.entries@[a] == pre[a]);
                        }
                    }
                    lemma_gen_of_update(pre, self.entries@, i as int, uri@);
                    assert forall|uu: Seq<char>| uu != uri@ implies spec_gen_of(
                        self.entries@,
                        uu,
                    ) == spec_gen_of(pre, uu) by {
                        lemma_gen_of_other(pre, self.entries@, i as int, uu);
                    }
                }
                g
            },
            None => {
                let mut u = String::new();
                u.append(uri);
                proof {
                    assert(u@ =~= uri@);
                }
                self.entries.push((u, 1));
                proof {
                    let m = self.entries@.len() - 1;
                    assert forall|a: int, b: int|
                        0 <= a < b < self.entries@.len() implies (#[trigger] self.entries@[a]).0@
                        != (#[trigger] self.entries@[b]).0@ by {
                        if b < m {
                            assert(pre[a].0@ != pre[b].0@);
                        } else {
                            assert(pre[a].0@ != uri@);
                        }
                    }
                    lemma_gen_of_push_new(pre, uri@, 1);
                    assert(spec_gen_of(self.entries@, uri@) == 1);
                    assert forall|uu: Seq<char>| uu != uri@ implies spec_gen_of(
                        self.entries@,
                        uu,
                    ) == spec_gen_of(pre, uu) by {
                        lemma_gen_of_push_other(pre, uri@, 1, uu);
                    }
                }
                1
            },
        }
    }

    /// Would a task holding `g` still publish: is `g` the current
    /// generation of the URI?
    pub fn is_current(&self, uri: &str, g: u64) -> (r: bool)
        requires
            self.wf(),
        ensures
            r == (g == self.spec_gen(uri@)),
    {
        match self.position_of(uri) {
            Some(i) => self.entries[i].1 == g,
            None => g == 0,
        }
    }
}

proof fn lemma_gen_of_update(pre: Seq<(String, u64)>, post: Seq<(String, u64)>, i: int, uri: Seq<char>)
    requires
        0 <= i < pre.len(),
        post.len() == pre.len(),
        forall|k: int| 0 <= k < pre.len() && k != i ==> post[k] == pre[k],
        post[i].0@ == uri,
        pre[i].0@ == uri,
        forall|k: int| 0 <= k < pre.len() && k != i ==> (#[trigger] pre[k]).0@ != uri,
    ensures
        spec_gen_of(post, uri) == post[i].1,
    decreases i,
{
    if i == 0 {
    } else {
        assert(post.drop_first()[i - 1] == post[i]);
        lemma_gen_of_update(pre.drop_first(), post.drop_first(), i - 1, uri);
    }
}

proof fn lemma_gen_of_other(pre: Seq<(String, u64)>, post: Seq<(String, u64)>, i: int, u: Seq<char>)
    requires
        0 <= i < pre.len(),
        post.len() == pre.len(),
        forall|k: int| 0 <= k < pre.len() && k != i ==> post[k] == pre[k],
        post[i].0@ != u,
        pre[i].0@ != u,
    ensures
        spec_gen_of(post, u) == spec_gen_of(pre, u),
    decreases pre.len(),
{
    if pre.len() > 0 {
        if i == 0 {
            assert(post.drop_first() =~= pre.drop_first());
        } else {
            assert(post[0] == pre[0]);
            lemma_gen_of_other(pre.drop_first(), post.drop_first(), i - 1, u);
        }
    }
}

proof fn lemma_gen_of_push_new(pre: Seq<(String, u64)>, uri: Seq<char>, g: u64)
    requires
        forall|k: int| 0 <= k < pre.len() ==> (#[trigger] pre[k]).0@ != uri,
    ensures
        forall|x: (String, u64)|
            x.0@ == uri && x.1 == g ==> spec_gen_of(pre.push(x), uri) == g,
    decreases pre.len(),
{
    assert forall|x: (String, u64)| x.0@ == uri && x.1 == g implies spec_gen_of(
        pre.push(x),
        uri,
    ) == g by {
        lemma_gen_of_push_aux(pre, x, uri);
    }
}

proof fn lemma_gen_of_push_aux(pre: Seq<(String, u64)>, x: (String, u64), uri: Seq<char>)
    requires
        forall|k: int| 0 <= k < pre.len() ==> (#[trigger] pre[k]).0@ != uri,
        x.0@ == uri,
    ensures
        spec_gen_of(pre.push(x), uri) == x.1,
    decreases pre.len(),
{
    if pre.len() == 0 {
        assert(pre.push(x)[0] == x);
    } else {
        assert(pre.push(x)[0] == pre[0]);
        assert(pre.push(x).drop_first() =~= pre.drop_first().push(x));
        lemma_gen_of_push_aux(pre.drop_first(), x, uri);
    }
}

proof fn lemma_gen_of_push_other(pre: Seq<(String, u64)>, uri: Seq<char>, g: u64, u: Seq<char>)
    requires
        u != uri,
    ensures
        forall|x: (String, u64)|
            x.0@ == uri ==> spec_gen_of(pre.push(x), u) == spec_gen_of(pre, u),
    decreases pre.len(),
{
    assert forall|x: (String, u64)| x.0@ == uri implies spec_gen_of(pre.push(x), u)
        == spec_gen_of(pre, u) by {
        lemma_gen_of_push_other_aux(pre, x, u);
    }
}

proof fn lemma_gen_of_push_other_aux(pre: Seq<(String, u64)>, x: (String, u64), u: Seq<char>)
    requires
        x.0@ != u,
    ensures
        spec_gen_of(pre.push(x), u) == spec_gen_of(pre, u),
    decreases pre.len(),
{
    if pre.len() == 0 {
        assert(pre.push(x)[0] == x);
        assert(pre.push(x).drop_first() =~= pre);
    } else {
        assert(pre.push(x)[0] == pre[0]);
        assert(pre.push(x).drop_first() =~= pre.drop_first().push(x));
        lemma_gen_of_push_other_aux(pre.drop_first(), x, u);
    }
}

// ---------------------------------------------------------------------------
// The debounce laws
// ---------------------------------------------------------------------------

/// One step of a document's history: an edit (which bumps the counter and
/// schedules a task holding the new value), or a publish attempt by the
/// task holding `gen`.
pub ghost struct DebounceStep {
    pub is_edit: bool,
    pub gen: int,
}

/// The counter after a prefix of the history.
pub open spec fn counter_after(trace: Seq<DebounceStep>) -> int
    decreases trace.len(),
{
    if trace.len() == 0 {
        0
    } else {
        counter_after(trace.drop_last()) + (if trace.last().is_edit {
            1int
        } else {
            0int
        })
    }
}

/// A valid history: every publish step carries exactly the counter value
/// current when it happens — the staleness check admits no other.
pub open spec fn valid_trace(trace: Seq<DebounceStep>) -> bool {
    forall|i: int|
        0 <= i < trace.len() && !(#[trigger] trace[i]).is_edit ==> trace[i].gen == counter_after(
            trace.subrange(0, i),
        )
}

pub proof fn lemma_counter_monotone(trace: Seq<DebounceStep>, i: int, j: int)
    requires
        0 <= i <= j <= trace.len(),
    ensures
        counter_after(trace.subrange(0, i)) <= counter_after(trace.subrange(0, j)),
    decreases j - i,
{
    if i < j {
        lemma_counter_monotone(trace, i, j - 1);
        assert(trace.subrange(0, j).drop_last() =~= trace.subrange(0, j - 1));
    }
}

/// Generation safety: in a valid history a publish from generation `g`
/// never happens after a publish from a generation above `g` — published
/// generations never go backwards.
pub proof fn lemma_generation_safety(trace: Seq<DebounceStep>, i: int, j: int)
    requires
        valid_trace(trace),
        0 <= i < j < trace.len(),
        !trace[i].is_edit,
        !trace[j].is_edit,
    ensures
        trace[i].gen <= trace[j].gen,
{
    lemma_counter_monotone(trace, i, j);
}

/// Debounce correctness: when several edits land on one document, each
/// scheduling a task with its own generation, only the task of the last
/// edit passes the staleness check — exactly one publish follows, and it
/// reflects the newest content.
pub proof fn lemma_debounce_correctness(gens: Seq<u64>, current: u64)
    requires
        gens.len() > 0,
        forall|i: int, j: int| 0 <= i < j < gens.len() ==> gens[i] < gens[j],
        gens.last() == current,
    ensures
        forall|i: int| 0 <= i < gens.len() - 1 ==> gens[i] != current,
        gens[gens.len() - 1] == current,
{
    assert forall|i: int| 0 <= i < gens.len() - 1 implies gens[i] != current by {
        assert(gens[i] < gens[gens.len() - 1]);
    }
}

} // verus!
