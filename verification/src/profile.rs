//! What a compiled kernel was given, what it is pinned to, and how the timings of
//! a step are grouped.

use vstd::prelude::*;
use vstd::utf8::encode_utf8_decode_utf8;

verus! {

/// Whether two names are the same text.
fn same_name(a: &str, b: &str) -> (same: bool)
    ensures
        same == (a@ == b@),
{
    proof {
        encode_utf8_decode_utf8(a@);
        encode_utf8_decode_utf8(b@);
    }
    let left = a.as_bytes();
    let right = b.as_bytes();
    if left.len() != right.len() {
        return false;
    }
    for i in 0..left.len()
        invariant
            left@.len() == right@.len(),
            left@ == vstd::utf8::encode_utf8(a@),
            right@ == vstd::utf8::encode_utf8(b@),
            forall|j: int| 0 <= j < i ==> left@[j] == right@[j],
    {
        if left[i] != right[i] {
            return false;
        }
    }
    assert(left@ =~= right@);
    true
}

/// A profiler that records nothing.
#[derive(Clone, Copy, Debug, PartialEq, Eq, Structural)]
pub struct NoopProfiler;

impl Default for NoopProfiler {
    fn default() -> (profiler: NoopProfiler)
        ensures
            profiler == NoopProfiler,
    {
        NoopProfiler
    }
}

impl NoopProfiler {
    /// Runs a kernel launch, and does nothing beside it.
    pub fn measure<T, E, F: FnOnce() -> Result<T, E>>(
        &mut self,
        _name: &'static str,
        kernel: F,
    ) -> (outcome: Result<T, E>)
        requires
            call_requires(kernel, ()),
        ensures
            call_ensures(kernel, (), outcome),
            *final(self) == *old(self),
    {
        kernel()
    }
}

/// What the assembler gave a kernel: registers of a thread, bytes of its local
/// frame, and the most threads of a block.
#[derive(Clone, Copy, Debug, PartialEq, Eq, Structural)]
pub struct FunctionProfile {
    pub registers: i32,
    pub spill_bytes: i32,
    pub max_threads: i32,
}

/// The most that a kernel of this name may be given.
#[derive(Clone, Copy, Debug)]
pub struct KernelBudget {
    pub name: &'static str,
    pub max_registers: i32,
    pub max_spill_bytes: i32,
}

impl KernelBudget {
    /// The kernel was given more of something than it is pinned to.
    pub open spec fn is_exceeded(self, profile: FunctionProfile) -> bool {
        profile.registers > self.max_registers || profile.spill_bytes > self.max_spill_bytes
    }

    /// The pin could be lowered.
    pub open spec fn is_loose(self, profile: FunctionProfile) -> bool {
        !self.is_exceeded(profile) && (profile.registers < self.max_registers || profile.spill_bytes
            < self.max_spill_bytes)
    }
}

/// How a kernel stands to the budgets; a pinned one names its budget's place.
#[derive(Clone, Copy, Debug, PartialEq, Eq, Structural)]
pub enum Standing {
    /// No budget has the kernel's name.
    Unpinned,
    /// It is over its budget.
    Over(usize),
    /// It is within its budget, and under it somewhere.
    Under(usize),
    /// It is exactly at its budget.
    Pinned(usize),
}

/// The budget at a place is the one of a kernel: the first with its name.
pub open spec fn is_budget_of(budgets: Seq<KernelBudget>, place: int, name: Seq<char>) -> bool {
    &&& 0 <= place < budgets.len()
    &&& budgets[place].name@ == name
    &&& forall|i: int| 0 <= i < place ==> (#[trigger] budgets[i]).name@ != name
}

/// The place of a kernel's budget.
pub fn budget_of(name: &'static str, budgets: &[KernelBudget]) -> (place: Option<usize>)
    ensures
        match place {
            Some(place) => is_budget_of(budgets@, place as int, name@),
            None => forall|i: int| 0 <= i < budgets@.len() ==> (#[trigger] budgets@[i]).name@
                != name@,
        },
        place matches Some(place) ==> {
            &&& place < budgets@.len()
            &&& budgets@[place as int].name@ == name@
            &&& forall|i: int| 0 <= i < place ==> (#[trigger] budgets@[i]).name@ != name@
        },
{
    for i in 0..budgets.len()
        invariant
            forall|j: int| 0 <= j < i ==> (#[trigger] budgets@[j]).name@ != name@,
    {
        if same_name(budgets[i].name, name) {
            return Some(i);
        }
    }
    None
}

/// How a kernel stands to the budgets.
pub fn standing(name: &'static str, profile: FunctionProfile, budgets: &[KernelBudget]) -> (found:
    Standing)
    ensures
        match found {
            Standing::Unpinned => forall|i: int|
                0 <= i < budgets@.len() ==> (#[trigger] budgets@[i]).name@ != name@,
            Standing::Over(place) => is_budget_of(budgets@, place as int, name@)
                && budgets@[place as int].is_exceeded(profile),
            Standing::Under(place) => is_budget_of(budgets@, place as int, name@)
                && budgets@[place as int].is_loose(profile),
            Standing::Pinned(place) => is_budget_of(budgets@, place as int, name@)
                && !budgets@[place as int].is_exceeded(profile)
                && !budgets@[place as int].is_loose(profile),
        },
        match found {
            Standing::Unpinned => true,
            Standing::Over(place) => {
                ||| profile.registers > budgets@[place as int].max_registers
                ||| profile.spill_bytes > budgets@[place as int].max_spill_bytes
            },
            Standing::Under(place) => {
                &&& profile.registers <= budgets@[place as int].max_registers
                &&& profile.spill_bytes <= budgets@[place as int].max_spill_bytes
                &&& profile.registers != budgets@[place as int].max_registers
                    || profile.spill_bytes != budgets@[place as int].max_spill_bytes
            },
            Standing::Pinned(place) => {
                &&& profile.registers == budgets@[place as int].max_registers
                &&& profile.spill_bytes == budgets@[place as int].max_spill_bytes
            },
        },
        found is Unpinned || (exists|place: int|
            0 <= place < budgets@.len() && (#[trigger] budgets@[place]).name@ == name@),
{
    match budget_of(name, budgets) {
        None => Standing::Unpinned,
        Some(place) => {
            let budget: KernelBudget = budgets[place];
            if profile.registers > budget.max_registers || profile.spill_bytes
                > budget.max_spill_bytes {
                Standing::Over(place)
            } else if profile.registers < budget.max_registers || profile.spill_bytes
                < budget.max_spill_bytes {
                Standing::Under(place)
            } else {
                Standing::Pinned(place)
            }
        },
    }
}

/// The kernel has a budget and is over it.
pub open spec fn violates(
    kernel: (&'static str, FunctionProfile),
    budgets: Seq<KernelBudget>,
) -> bool {
    exists|place: int| #[trigger]
        is_budget_of(budgets, place, kernel.0@) && budgets[place].is_exceeded(kernel.1)
}

/// The places among the first `count` kernels that violate a budget, in order.
pub open spec fn violations(
    kernels: Seq<(&'static str, FunctionProfile)>,
    budgets: Seq<KernelBudget>,
    count: int,
) -> Seq<usize>
    decreases count,
{
    if count <= 0 {
        Seq::empty()
    } else {
        let before = violations(kernels, budgets, count - 1);
        if violates(kernels[count - 1], budgets) {
            before.push((count - 1) as usize)
        } else {
            before
        }
    }
}

/// Fails with the kernels that are over their budgets, if there are any. A kernel
/// without a budget never fails.
pub fn enforce_kernel_budgets(
    kernels: &[(&'static str, FunctionProfile)],
    budgets: &[KernelBudget],
) -> (outcome: Result<(), Vec<usize>>)
    ensures
        match outcome {
            Ok(_) => violations(kernels@, budgets@, kernels@.len() as int).len() == 0,
            Err(over) => over@.len() > 0 && over@ == violations(
                kernels@,
                budgets@,
                kernels@.len() as int,
            ),
        },
        outcome is Ok <==> forall|i: int|
            0 <= i < kernels@.len() ==> !violates(#[trigger] kernels@[i], budgets@),
{
    let mut over: Vec<usize> = Vec::new();
    for i in 0..kernels.len()
        invariant
            over@ == violations(kernels@, budgets@, i as int),
    {
        let (name, profile) = kernels[i];
        let found = standing(name, profile, budgets);
        proof {
            lemma_standing_decides(kernels@[i as int], budgets@, found);
        }
        if let Standing::Over(_) = found {
            over.push(i);
        }
    }
    proof {
        law_budgets_hold_when_none_is_over(kernels@, budgets@, kernels@.len() as int);
    }
    if over.len() == 0 {
        Ok(())
    } else {
        Err(over)
    }
}

proof fn lemma_standing_decides(
    kernel: (&'static str, FunctionProfile),
    budgets: Seq<KernelBudget>,
    found: Standing,
)
    requires
        match found {
            Standing::Unpinned => forall|i: int|
                0 <= i < budgets.len() ==> (#[trigger] budgets[i]).name@ != kernel.0@,
            Standing::Over(place) => is_budget_of(budgets, place as int, kernel.0@)
                && budgets[place as int].is_exceeded(kernel.1),
            Standing::Under(place) => is_budget_of(budgets, place as int, kernel.0@)
                && budgets[place as int].is_loose(kernel.1),
            Standing::Pinned(place) => is_budget_of(budgets, place as int, kernel.0@)
                && !budgets[place as int].is_exceeded(kernel.1),
        },
    ensures
        violates(kernel, budgets) <==> found is Over,
{
    if violates(kernel, budgets) {
        let place = choose|place: int| #[trigger]
            is_budget_of(budgets, place, kernel.0@) && budgets[place].is_exceeded(kernel.1);
        assert(budgets[place].name@ == kernel.0@);
        match found {
            Standing::Unpinned => {},
            Standing::Over(_) => {},
            Standing::Under(other) => {
                assert(other == place) by {
                    assert(budgets[other as int].name@ == kernel.0@);
                }
            },
            Standing::Pinned(other) => {
                assert(other == place) by {
                    assert(budgets[other as int].name@ == kernel.0@);
                }
            },
        }
    }
}

/// Law: the budgets hold exactly when no kernel is over its budget.
pub proof fn law_budgets_hold_when_none_is_over(
    kernels: Seq<(&'static str, FunctionProfile)>,
    budgets: Seq<KernelBudget>,
    count: int,
)
    requires
        0 <= count <= kernels.len(),
    ensures
        violations(kernels, budgets, count).len() == 0 <==> forall|i: int|
            0 <= i < count ==> !violates(#[trigger] kernels[i], budgets),
    decreases count,
{
    if count > 0 {
        law_budgets_hold_when_none_is_over(kernels, budgets, count - 1);
        if violations(kernels, budgets, count - 1).len() == 0 && !violates(
            kernels[count - 1],
            budgets,
        ) {
            assert forall|i: int| 0 <= i < count implies !violates(#[trigger] kernels[i], budgets) by {
                if i < count - 1 {
                    assert(!violates(kernels[i], budgets));
                }
            }
        }
    }
}

/// The timings of a step by name: the first timing of each name, in the order in
/// which the names are first seen, and the row that each timing adds to.
#[derive(Debug)]
pub struct Grouping {
    pub firsts: Vec<usize>,
    pub rows: Vec<usize>,
}

impl Grouping {
    /// The grouping of the first `count` names.
    pub open spec fn groups(self, names: Seq<&'static str>, count: int) -> bool {
        &&& self.rows@.len() == count
        &&& forall|r: int| 0 <= r < self.firsts@.len() ==> (#[trigger] self.firsts@[r]) < count
        &&& forall|r: int, s: int|
            0 <= r < s < self.firsts@.len() ==> #[trigger] self.firsts@[r]
                < #[trigger] self.firsts@[s]
        &&& forall|i: int|
            0 <= i < count ==> self.is_first_of(names, #[trigger] self.rows@[i] as int, i)
    }

    /// Row `row` begins with the first timing that has the name of timing `i`.
    pub open spec fn is_first_of(self, names: Seq<&'static str>, row: int, i: int) -> bool {
        &&& 0 <= row < self.firsts@.len()
        &&& self.firsts@[row] <= i
        &&& names[self.firsts@[row] as int]@ == names[i]@
        &&& forall|j: int| 0 <= j < self.firsts@[row] ==> (#[trigger] names[j])@ != names[i]@
    }

    /// Each row begins with the first timing of its name.
    pub open spec fn begins_rows(self, names: Seq<&'static str>) -> bool {
        forall|r: int|
            0 <= r < self.firsts@.len() ==> self.is_first_of(
                names,
                r,
                (#[trigger] self.firsts@[r]) as int,
            )
    }
}

/// Groups timings by name, rows in first-seen order, so that a kernel launched
/// many times in a step reads as one row.
pub fn aggregated_kernels(names: &[&'static str]) -> (grouping: Grouping)
    ensures
        grouping.groups(names@, names@.len() as int),
        grouping.begins_rows(names@),
        grouping.rows@.len() == names@.len(),
        forall|i: int|
            0 <= i < names@.len() ==> (#[trigger] grouping.rows@[i]) < grouping.firsts@.len()
                && names@[grouping.firsts@[grouping.rows@[i] as int] as int]@ == names@[i]@,
        forall|r: int, s: int|
            0 <= r < s < grouping.firsts@.len() ==> #[trigger] grouping.firsts@[r]
                < #[trigger] grouping.firsts@[s],
{
    let mut grouping = Grouping { firsts: Vec::new(), rows: Vec::new() };
    for i in 0..names.len()
        invariant
            grouping.groups(names@, i as int),
            grouping.begins_rows(names@),
    {
        let row: usize = row_of(&grouping, names, i);
        let ghost before = grouping;
        if row == grouping.firsts.len() {
            grouping.firsts.push(i);
        }
        grouping.rows.push(row);
        proof {
            assert forall|j: int| 0 <= j < i + 1 implies grouping.is_first_of(
                names@,
                #[trigger] grouping.rows@[j] as int,
                j,
            ) by {
                if j < i {
                    assert(grouping.rows@[j] == before.rows@[j]);
                    assert(before.is_first_of(names@, before.rows@[j] as int, j));
                }
            }
            assert forall|r: int| 0 <= r < grouping.firsts@.len() implies grouping.is_first_of(
                names@,
                r,
                (#[trigger] grouping.firsts@[r]) as int,
            ) by {
                if r < before.firsts@.len() {
                    assert(before.is_first_of(names@, r, before.firsts@[r] as int));
                }
            }
        }
    }
    grouping
}

/// The row of the name at `i`, or the next new one.
fn row_of(grouping: &Grouping, names: &[&'static str], i: usize) -> (row: usize)
    requires
        i < names@.len(),
        grouping.groups(names@, i as int),
        grouping.begins_rows(names@),
    ensures
        row <= grouping.firsts@.len(),
        row < grouping.firsts@.len() ==> grouping.is_first_of(names@, row as int, i as int),
        row == grouping.firsts@.len() ==> forall|j: int|
            0 <= j < i ==> (#[trigger] names@[j])@ != names@[i as int]@,
{
    for row in 0..grouping.firsts.len()
        invariant
            i < names@.len(),
            grouping.groups(names@, i as int),
            grouping.begins_rows(names@),
            forall|r: int|
                0 <= r < row ==> names@[(#[trigger] grouping.firsts@[r]) as int]@
                    != names@[i as int]@,
    {
        let first: usize = grouping.firsts[row];
        if same_name(names[first], names[i]) {
            assert(grouping.is_first_of(names@, row as int, first as int));
            return row;
        }
    }
    proof {
        assert forall|j: int| 0 <= j < i implies (#[trigger] names@[j])@ != names@[i as int]@ by {
            let r = grouping.rows@[j] as int;
            assert(grouping.is_first_of(names@, r, j));
            assert(names@[grouping.firsts@[r] as int]@ != names@[i as int]@);
        }
    }
    grouping.firsts.len()
}

/// Law: two timings add to one row exactly when they have one name, and no two
/// rows share a name.
pub proof fn law_one_row_per_name(names: Seq<&'static str>, grouping: Grouping, i: int, j: int)
    requires
        grouping.groups(names, names.len() as int),
        grouping.begins_rows(names),
        0 <= i < names.len(),
        0 <= j < names.len(),
    ensures
        grouping.rows@[i] == grouping.rows@[j] <==> names[i]@ == names[j]@,
        forall|r: int, s: int|
            0 <= r < s < grouping.firsts@.len() ==> names[(
            #[trigger] grouping.firsts@[r]) as int]@ != names[(
            #[trigger] grouping.firsts@[s]) as int]@,
{
    let a = grouping.rows@[i] as int;
    let b = grouping.rows@[j] as int;
    assert(grouping.is_first_of(names, a, i));
    assert(grouping.is_first_of(names, b, j));
    if names[i]@ == names[j]@ {
        assert(names[grouping.firsts@[a] as int]@ == names[grouping.firsts@[b] as int]@);
        assert(grouping.firsts@[a] == grouping.firsts@[b]);
        if a < b {
            assert(grouping.firsts@[a] < grouping.firsts@[b]);
        } else if b < a {
            assert(grouping.firsts@[b] < grouping.firsts@[a]);
        }
    }
    assert forall|r: int, s: int| 0 <= r < s < grouping.firsts@.len() implies names[(
    #[trigger] grouping.firsts@[r]) as int]@ != names[(
    #[trigger] grouping.firsts@[s]) as int]@ by {
        assert(grouping.is_first_of(names, s, grouping.firsts@[s] as int));
        assert(grouping.firsts@[r] < grouping.firsts@[s]);
    }
}

/// Law: a kernel violates its budget exactly where some budget has its name, and
/// the first that has is lower than what the kernel was given.
pub proof fn law_the_first_budget_of_a_name_decides(
    kernel: (&'static str, FunctionProfile),
    budgets: Seq<KernelBudget>,
    place: int,
)
    requires
        0 <= place < budgets.len(),
        budgets[place].name@ == kernel.0@,
        forall|i: int| 0 <= i < place ==> (#[trigger] budgets[i]).name@ != kernel.0@,
    ensures
        violates(kernel, budgets) <==> budgets[place].max_registers < kernel.1.registers
            || budgets[place].max_spill_bytes < kernel.1.spill_bytes,
{
    assert(is_budget_of(budgets, place, kernel.0@));
    if violates(kernel, budgets) {
        let other = choose|other: int| #[trigger]
            is_budget_of(budgets, other, kernel.0@) && budgets[other].is_exceeded(kernel.1);
        assert(budgets[other].name@ == kernel.0@);
        assert(other == place);
    }
}

/// Law: a kernel whose name no budget has violates none.
pub proof fn law_an_unpinned_kernel_never_fails(
    kernel: (&'static str, FunctionProfile),
    budgets: Seq<KernelBudget>,
)
    requires
        forall|i: int| 0 <= i < budgets.len() ==> (#[trigger] budgets[i]).name@ != kernel.0@,
    ensures
        !violates(kernel, budgets),
{
}

/// Law: the kernels that are named as over their budgets are those that are, each
/// once and in order.
pub proof fn law_violations_are_the_kernels_over(
    kernels: Seq<(&'static str, FunctionProfile)>,
    budgets: Seq<KernelBudget>,
    count: int,
)
    requires
        0 <= count <= kernels.len(),
        count <= usize::MAX,
    ensures
        forall|i: usize| #[trigger]
            violations(kernels, budgets, count).contains(i) <==> i < count && violates(
                kernels[i as int],
                budgets,
            ),
        forall|k: int| #![auto]
            0 <= k < violations(kernels, budgets, count).len() ==> violations(
                kernels,
                budgets,
                count,
            )[k] < count,
        forall|k: int, l: int|
            0 <= k < l < violations(kernels, budgets, count).len() ==> #[trigger] violations(
                kernels,
                budgets,
                count,
            )[k] < #[trigger] violations(kernels, budgets, count)[l],
    decreases count,
{
    if count > 0 {
        law_violations_are_the_kernels_over(kernels, budgets, count - 1);
        let before = violations(kernels, budgets, count - 1);
        let after = violations(kernels, budgets, count);
        assert forall|i: usize| #[trigger]
            after.contains(i) <==> i < count && violates(kernels[i as int], budgets) by {
            if i < count - 1 && violates(kernels[i as int], budgets) {
                assert(before.contains(i));
                let k = choose|k: int| 0 <= k < before.len() && before[k] == i;
                assert(after[k] == i);
            }
            if i == count - 1 && violates(kernels[i as int], budgets) {
                assert(after[before.len() as int] == i);
            }
            if after.contains(i) {
                let k = choose|k: int| 0 <= k < after.len() && after[k] == i;
                if k < before.len() {
                    assert(before[k] == i);
                    assert(before.contains(i));
                }
            }
        }
        assert forall|k: int, l: int| 0 <= k < l < after.len() implies #[trigger] after[k]
            < #[trigger] after[l] by {
            assert(after[k] == before[k]);
            if l < before.len() {
                assert(after[l] == before[l]);
            }
        }
    }
}

} // verus!
