//! The concurrency scheduler for one source field: hands out fetch slots
//! under an in-flight bound, accepts completions in any order, and
//! reassembles the results in original token position.
//!
//! The caller performs the actual transfers: it asks for the next launch,
//! runs it, and reports the checksum back under the slot's index.  Whatever
//! the completion order, each result lands at its recorded position, and at
//! most `bound` slots are ever running at once.

use vstd::prelude::*;

use crate::detect::changed_spec;
use crate::detect::token_set;
use crate::detect::toks_set;
use crate::text::string_views;

verus! {

/// The abstract state of one fetch slot.
pub enum SlotModel {
    Skip,
    Pending(Seq<char>),
    Running,
    Done(Seq<char>),
}

/// One fetch slot.
enum Slot {
    Skip,
    Pending { url: String },
    Running,
    Done { checksum: String },
}

/// The abstract state of a slot.
spec fn slot_model(s: Slot) -> SlotModel {
    match s {
        Slot::Skip => SlotModel::Skip,
        Slot::Pending { url } => SlotModel::Pending(url@),
        Slot::Running => SlotModel::Running,
        Slot::Done { checksum } => SlotModel::Done(checksum@),
    }
}

/// The checksum token a finished slot contributes: `SKIP` for a
/// version-control entry, the recorded checksum string otherwise.
pub open spec fn slot_result(s: SlotModel) -> Seq<char> {
    match s {
        SlotModel::Skip => "SKIP"@,
        SlotModel::Done(c) => c,
        _ => Seq::empty(),
    }
}

/// The reassembled checksum tokens of a finished field, in slot order.
pub open spec fn results_spec(m: Seq<SlotModel>) -> Seq<Seq<char>> {
    m.map_values(|s: SlotModel| slot_result(s))
}

/// How many slots are running.
pub open spec fn running_count(m: Seq<SlotModel>) -> nat
    decreases m.len(),
{
    if m.len() == 0 {
        0
    } else {
        running_count(m.drop_last()) + if m.last() is Running {
            1nat
        } else {
            0nat
        }
    }
}

/// How one slot update moves the running count.
proof fn lemma_running_count_update(m: Seq<SlotModel>, i: int, v: SlotModel)
    requires
        0 <= i < m.len(),
    ensures
        running_count(m.update(i, v)) == running_count(m) - (
        if m[i] is Running {
            1int
        } else {
            0int
        }) + (
        if v is Running {
            1int
        } else {
            0int
        }),
    decreases m.len(),
{
    let q = m.update(i, v);
    if i == m.len() - 1 {
        assert(q.drop_last() =~= m.drop_last());
    } else {
        assert(q.drop_last() =~= m.drop_last().update(i, v));
        lemma_running_count_update(m.drop_last(), i, v);
        assert(q.last() == m.last());
    }
}

/// With no slot running the count is zero.
proof fn lemma_running_count_zero(m: Seq<SlotModel>)
    requires
        forall|i: int| 0 <= i < m.len() ==> !(m[i] is Running),
    ensures
        running_count(m) == 0,
    decreases m.len(),
{
    if m.len() > 0 {
        lemma_running_count_zero(m.drop_last());
    }
}

/// A running slot keeps the count at one or more.
proof fn lemma_running_count_pos(m: Seq<SlotModel>, i: int)
    requires
        0 <= i < m.len(),
        m[i] is Running,
    ensures
        running_count(m) >= 1,
    decreases m.len(),
{
    if i < m.len() - 1 {
        lemma_running_count_pos(m.drop_last(), i);
    }
}

/// The per-field fetch scheduler.  One slot per source token; at most
/// `bound` slots run at once; completions may arrive in any order.
pub struct FieldScheduler {
    bound: usize,
    in_flight: usize,
    slots: Vec<Slot>,
}

impl FieldScheduler {
    /// The abstract slot states, in token order.
    pub closed spec fn model(self) -> Seq<SlotModel> {
        self.slots@.map_values(|s: Slot| slot_model(s))
    }

    /// The configured in-flight bound.
    pub closed spec fn bound_spec(self) -> nat {
        self.bound as nat
    }

    /// The scheduler's invariant: the bound is positive, the in-flight
    /// counter counts exactly the running slots, and it never exceeds the
    /// bound.
    pub closed spec fn wf(self) -> bool {
        &&& self.bound >= 1

        &&& self.in_flight as nat == running_count(self.model())
        &&& self.in_flight <= self.bound
    }

    /// Sets a field up: one slot per token, `None` for a version-control
    /// entry (never fetched), `Some(url)` for a fetchable one.
    pub fn new(urls: &Vec<Option<String>>, bound: usize) -> (r: FieldScheduler)
        requires
            bound >= 1,
        ensures
            r.wf(),
            r.bound_spec() == bound,
            r.model().len() == urls@.len(),
            forall|i: int|
                0 <= i < urls@.len() ==> r.model()[i] == match urls@[i] {
                    None => SlotModel::Skip,
                    Some(u) => SlotModel::Pending(u@),
                },
    {
        let n = urls.len();
        let mut slots: Vec<Slot> = Vec::new();
        let mut i: usize = 0;
        while i < n
            invariant
                n == urls@.len(),
                i <= n,
                slots@.len() == i,
                forall|k: int|
                    0 <= k < i ==> slot_model(slots@[k]) == match urls@[k] {
                        None => SlotModel::Skip,
                        Some(u) => SlotModel::Pending(u@),
                    },
                forall|k: int| 0 <= k < i ==> !(slot_model(slots@[k]) is Running),
            decreases n - i,
        {
            match &urls[i] {
                None => {
                    slots.push(Slot::Skip);
                },
                Some(u) => {
                    slots.push(Slot::Pending { url: u.clone() });
                },
            }
            i += 1;
        }
        let r = FieldScheduler { bound, in_flight: 0, slots };
        proof {
            lemma_running_count_zero(r.model());
        }
        r
    }

    /// Hands out the next fetch to start: the first pending slot, provided
    /// fewer than `bound` fetches are running.  `None` means the bound is
    /// reached or nothing is pending.
    pub fn next_launch(&mut self) -> (r: Option<(usize, String)>)
        requires
            old(self).wf(),
        ensures
            final(self).wf(),
            final(self).bound_spec() == old(self).bound_spec(),
            final(self).model().len() == old(self).model().len(),
            running_count(final(self).model()) <= final(self).bound_spec(),
            match r {
                None => final(self).model() == old(self).model() && (running_count(
                    old(self).model(),
                ) == old(self).bound_spec() || forall|i: int|
                    0 <= i < old(self).model().len() ==> !(old(self).model()[i] is Pending)),
                Some((i, url)) => {
                    &&& i < old(self).model().len()
                    &&& old(self).model()[i as int] == SlotModel::Pending(url@)
                    &&& final(self).model() == old(self).model().update(
                        i as int,
                        SlotModel::Running,
                    )
                    &&& running_count(old(self).model()) < old(self).bound_spec()
                    &&& running_count(final(self).model()) == running_count(old(self).model())
                        + 1
                },
            },
    {
        if self.in_flight >= self.bound {
            return None;
        }
        let n = self.slots.len();
        let mut i: usize = 0;
        while i < n
            invariant
                self == old(self),
                old(self).wf(),
                old(self).in_flight < old(self).bound,
                n == self.slots@.len(),
                i <= n,
                forall|k: int| 0 <= k < i ==> !(self.model()[k] is Pending),
            decreases n - i,
        {
            let mut is_pending = false;
            let mut url = String::new();
            match &self.slots[i] {
                Slot::Pending { url: u } => {
                    is_pending = true;
                    url = u.clone();
                },
                _ => {
                },
            }
            if is_pending {
                let ghost m = self.model();
                self.slots.set(i, Slot::Running);
                self.in_flight = self.in_flight + 1;
                proof {
                    assert(final(self).model() =~= m.update(i as int, SlotModel::Running));
                    lemma_running_count_update(m, i as int, SlotModel::Running);
                }
                return Some((i, url));
            }
            i += 1;
        }
        None
    }

    /// Records the finished checksum of the slot at `index`.
    pub fn complete(&mut self, index: usize, checksum: String)
        requires
            old(self).wf(),
            index < old(self).model().len(),
            old(self).model()[index as int] is Running,
        ensures
            final(self).wf(),
            final(self).bound_spec() == old(self).bound_spec(),
            final(self).model() == old(self).model().update(
                index as int,
                SlotModel::Done(checksum@),
            ),
            running_count(final(self).model()) == running_count(old(self).model()) - 1,
    {
        let ghost m = self.model();
        proof {
            lemma_running_count_pos(m, index as int);
        }
        self.slots.set(index, Slot::Done { checksum });
        self.in_flight = self.in_flight - 1;
        proof {
            assert(final(self).model() =~= m.update(
                index as int,
                SlotModel::Done(checksum@),
            ));
            lemma_running_count_update(m, index as int, SlotModel::Done(checksum@));
        }
    }

    /// Whether every slot is settled: skipped or done.
    pub fn finished(&self) -> (r: bool)
        ensures
            r == forall|i: int|
                0 <= i < self.model().len() ==> self.model()[i] is Skip || self.model()[i]
                    is Done,
    {
        let n = self.slots.len();
        let mut i: usize = 0;
        while i < n
            invariant
                n == self.slots@.len(),
                i <= n,
                forall|k: int|
                    0 <= k < i ==> self.model()[k] is Skip || self.model()[k] is Done,
            decreases n - i,
        {
            let mut settled = false;
            match &self.slots[i] {
                Slot::Skip => {
                    settled = true;
                },
                Slot::Done { .. } => {
                    settled = true;
                },
                _ => {
                },
            }
            if !settled {
                proof {
                    assert(!(self.model()[i as int] is Skip) && !(self.model()[i as int]
                        is Done));
                }
                return false;
            }
            i += 1;
        }
        true
    }

    /// Reads the reassembled checksum tokens of a finished field, one per
    /// source token, in original token order.
    pub fn results(&self) -> (r: Vec<String>)
        requires
            forall|i: int|
                0 <= i < self.model().len() ==> self.model()[i] is Skip || self.model()[i]
                    is Done,
        ensures
            string_views(r@) == results_spec(self.model()),
            r@.len() == self.model().len(),
    {
        let n = self.slots.len();
        let mut r: Vec<String> = Vec::new();
        let mut i: usize = 0;
        while i < n
            invariant
                forall|k: int|
                    0 <= k < self.model().len() ==> self.model()[k] is Skip || self.model()[k]
                        is Done,
                n == self.slots@.len(),
                i <= n,
                r@.len() == i,
                forall|k: int| 0 <= k < i ==> r@[k]@ == slot_result(self.model()[k]),
            decreases n - i,
        {
            match &self.slots[i] {
                Slot::Skip => {
                    r.push(String::from_str("SKIP"));
                },
                Slot::Done { checksum } => {
                    r.push(checksum.clone());
                },
                Slot::Pending { .. } => {
                    proof {
                        assert(self.model()[i as int] is Pending);
                        assert(false);
                    }
                },
                Slot::Running => {
                    proof {
                        assert(self.model()[i as int] is Running);
                        assert(false);
                    }
                },
            }
            i += 1;
        }
        proof {
            assert(string_views(r@) =~= results_spec(self.model()));
        }
        r
    }
}

/// At most `bound` fetches are in flight in any well-formed scheduler
/// state: the concurrency bound is an invariant, not a hope.
pub proof fn lemma_concurrency_bound(s: FieldScheduler)
    requires
        s.wf(),
    ensures
        running_count(s.model()) <= s.bound_spec(),
{
}

/// A field whose sources are all version-control entries reassembles into
/// one `SKIP` token per source, and counts as unchanged exactly when a
/// stored value already existed whose token set is the singleton `SKIP`
/// set.  The detector reads token sets, so the stored token count plays no
/// part in the verdict.
pub proof fn lemma_all_vcs_all_skip(slots: Seq<SlotModel>, old_val: Option<Seq<char>>)
    requires
        slots.len() >= 1,
        forall|i: int| 0 <= i < slots.len() ==> slots[i] is Skip,
    ensures
        results_spec(slots).len() == slots.len(),
        forall|i: int| 0 <= i < slots.len() ==> results_spec(slots)[i] == "SKIP"@,
        changed_spec(old_val, results_spec(slots)) == false <==> (old_val is Some && token_set(
            old_val->0,
        ) == seq!["SKIP"@].to_set()),
{
    let rs = results_spec(slots);
    assert(toks_set(rs) =~= seq!["SKIP"@].to_set()) by {
        assert(rs[0] == "SKIP"@);
        assert(rs.contains("SKIP"@));
        assert(seq!["SKIP"@][0] == "SKIP"@);
        assert(seq!["SKIP"@].contains("SKIP"@));
        assert forall|x: Seq<char>| rs.to_set().contains(x) implies seq![
            "SKIP"@,
        ].to_set().contains(x) by {
            let k = choose|k: int| 0 <= k < rs.len() && rs[k] == x;
            assert(rs[k] == "SKIP"@);
        }
    }
}


/// A field's reassembled checksum token list has exactly as many tokens as
/// the field's source token list: the plan carries one entry per source
/// token and the scheduler one slot per entry.
pub proof fn lemma_token_count_preserved(
    key: Seq<char>,
    value: Seq<char>,
    p: crate::entry::FieldPlan,
    m: Seq<SlotModel>,
)
    requires
        crate::entry::plan_matches(key, value, p),
        m.len() == p.entries@.len(),
    ensures
        results_spec(m).len() == crate::text::split_ws(value).len(),
{
}

} // verus!
