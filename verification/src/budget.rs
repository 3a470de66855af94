//! Instruction allowances, charged per call.

use crate::text;
use vstd::prelude::*;
use vstd::string::*;

verus! {

/// What an allowance holds after a charge: the count goes round at the top of its range.
pub open spec fn charged(used: u64, amount: u64) -> u64 {
    ((used as int + amount as int) % 0x1_0000_0000_0000_0000) as u64
}

/// Whether a charge goes over an allowance.
pub open spec fn overdrawn(used: u64, amount: u64, limit: u64) -> bool {
    used as int + amount as int > limit as int
}

fn add_round(used: u64, amount: u64) -> (r: u64)
    ensures
        r == charged(used, amount),
{
    used.wrapping_add(amount)
}

fn goes_over(used: u64, amount: u64, limit: u64) -> (r: bool)
    ensures
        r == (overdrawn(used, amount, limit) && limit != u64::MAX),
{
    used.saturating_add(amount) > limit
}

/// Counts that budgets are charged to. A budget is a handle on one of them, and so is every copy
/// of it: what is charged or reset through one shows in all.
#[derive(Debug, PartialEq, Eq)]
pub struct Counts {
    used: Vec<u64>,
}

impl View for Counts {
    type V = Seq<u64>;

    closed spec fn view(&self) -> Seq<u64> {
        self.used@
    }
}

impl Counts {
    /// The count of an account: nothing, where there is none.
    pub open spec fn count(self, account: int) -> u64 {
        if 0 <= account < self@.len() {
            self@[account]
        } else {
            0
        }
    }

    /// The counts with another in one account, where there is one.
    pub open spec fn with(self, account: int, count: u64) -> Seq<u64> {
        if 0 <= account < self@.len() {
            self@.update(account, count)
        } else {
            self@
        }
    }

    /// No counts.
    pub fn new() -> (r: Counts)
        ensures
            r@.len() == 0,
    {
        Counts { used: Vec::new() }
    }

    /// The same counts once more.
    pub fn copy(&self) -> (r: Counts)
        ensures
            r@ == self@,
    {
        let n: usize = self.used.len();
        let mut used: Vec<u64> = Vec::new();
        let mut i: usize = 0;
        while i < n
            invariant
                n == self.used.len(),
                i <= n,
                used@ =~= self.used@.subrange(0, i as int),
            decreases n - i,
        {
            used.push(self.used[i]);
            i = i + 1;
        }
        proof {
            assert(used@ =~= self.used@);
        }
        Counts { used }
    }

    /// Takes the counts out, leaving none.
    pub fn take(&mut self) -> (r: Counts)
        ensures
            r@ == old(self)@,
            final(self)@.len() == 0,
    {
        let mut used: Vec<u64> = Vec::new();
        used.append(&mut self.used);
        proof {
            assert(used@ =~= old(self)@);
        }
        Counts { used }
    }

    fn open(&mut self) -> (r: usize)
        ensures
            r == old(self)@.len(),
            final(self)@ == old(self)@.push(0),
    {
        let account: usize = self.used.len();
        self.used.push(0);
        account
    }

    fn get(&self, account: usize) -> (r: u64)
        ensures
            r == self.count(account as int),
    {
        if account < self.used.len() {
            self.used[account]
        } else {
            0
        }
    }

    fn set(&mut self, account: usize, count: u64)
        ensures
            final(self)@ == old(self).with(account as int, count),
    {
        if account < self.used.len() {
            self.used.set(account, count);
        }
    }
}

/// Instruction budget of one instance, reset per call and enforced at the dispatch boundary.
#[derive(Debug, Clone, Copy, PartialEq, Eq, Structural)]
pub struct CallBudget {
    account: usize,
    limit: u64,
}

impl CallBudget {
    /// The account that charges go to.
    pub closed spec fn charges(self) -> int {
        self.account as int
    }

    pub closed spec fn allowed(self) -> u64 {
        self.limit
    }

    /// What was charged since the last reset.
    pub open spec fn spent(self, counts: Counts) -> u64 {
        counts.count(self.charges())
    }

    /// Whether charges have an account to go to.
    pub open spec fn opened_in(self, counts: Counts) -> bool {
        0 <= self.charges() < counts@.len()
    }

    /// A full allowance, with an account of its own.
    pub fn new(counts: &mut Counts, limit: u64) -> (r: CallBudget)
        ensures
            r.allowed() == limit,
            r.charges() == old(counts)@.len(),
            final(counts)@ == old(counts)@.push(0),
            r.opened_in(*final(counts)),
            r.spent(*final(counts)) == 0,
    {
        let account: usize = counts.open();
        CallBudget { account, limit }
    }

    /// Reset before each call.
    pub fn reset(&self, counts: &mut Counts)
        ensures
            self.spent(*final(counts)) == 0,
            final(counts)@ == old(counts).with(self.charges(), 0),
    {
        counts.set(self.account, 0);
    }

    /// The configured allowance.
    pub fn limit(&self) -> (r: u64)
        ensures
            r == self.allowed(),
    {
        self.limit
    }

    /// What was charged against the allowance since the last reset, through whichever handle.
    pub fn used(&self, counts: &Counts) -> (r: u64)
        ensures
            r == self.spent(*counts),
    {
        counts.get(self.account)
    }

    /// Charges `amount`; returns `Err` if over limit. An allowance of the whole range is never
    /// gone over.
    pub fn consume(&self, counts: &mut Counts, amount: u64) -> (r: Result<(), String>)
        requires
            self.opened_in(*old(counts)),
        ensures
            self.spent(*final(counts)) == charged(self.spent(*old(counts)), amount),
            final(counts)@ == old(counts).with(
                self.charges(),
                charged(self.spent(*old(counts)), amount),
            ),
            r is Err <==> overdrawn(self.spent(*old(counts)), amount, self.allowed())
                && self.allowed() != u64::MAX,
            r matches Err(message) ==> message@ == "call exceeded budget of "@ + text::decimal(self.allowed() as nat) + " instructions"@,
    {
        let used: u64 = counts.get(self.account);
        let over = goes_over(used, amount, self.limit);
        counts.set(self.account, add_round(used, amount));
        if over {
            let mut out = "call exceeded budget of ".to_owned();
            out.append(text::number(self.limit).as_str());
            out.append(" instructions");
            return Err(out);
        }
        Ok(())
    }
}

/// Remaining instruction allowance for one plugin state.
///
/// Reset by the registry at each call boundary, so the limit applies per call rather than
/// for the lifetime of the plugin. Counted per state: every member of a dependency group reads
/// the same number.
#[derive(Debug, Clone, Copy, PartialEq, Eq, Structural)]
pub struct Budget {
    account: usize,
    limit: u64,
}

impl Budget {
    /// The account that charges go to.
    pub closed spec fn charges(self) -> int {
        self.account as int
    }

    pub closed spec fn allowed(self) -> u64 {
        self.limit
    }

    /// What was charged since the last reset.
    pub open spec fn spent(self, counts: Counts) -> u64 {
        counts.count(self.charges())
    }

    /// Whether charges have an account to go to.
    pub open spec fn opened_in(self, counts: Counts) -> bool {
        0 <= self.charges() < counts@.len()
    }

    /// A full allowance, with an account of its own.
    pub fn new(counts: &mut Counts, limit: u64) -> (r: Budget)
        ensures
            r.allowed() == limit,
            r.charges() == old(counts)@.len(),
            final(counts)@ == old(counts)@.push(0),
            r.opened_in(*final(counts)),
            r.spent(*final(counts)) == 0,
    {
        let account: usize = counts.open();
        Budget { account, limit }
    }

    /// Clears the allowance. Called before each plugin call.
    pub fn reset(&self, counts: &mut Counts)
        ensures
            self.spent(*final(counts)) == 0,
            final(counts)@ == old(counts).with(self.charges(), 0),
    {
        counts.set(self.account, 0);
    }

    /// The configured allowance.
    pub fn limit(&self) -> (r: u64)
        ensures
            r == self.allowed(),
    {
        self.limit
    }

    /// What was charged against the allowance since the last reset, through whichever handle.
    pub fn used(&self, counts: &Counts) -> (r: u64)
        ensures
            r == self.spent(*counts),
    {
        counts.get(self.account)
    }

    /// Charges `amount`; returns `Err` if over limit. An allowance of the whole range is never
    /// gone over.
    pub fn consume(&self, counts: &mut Counts, amount: u64) -> (r: Result<(), String>)
        requires
            self.opened_in(*old(counts)),
        ensures
            self.spent(*final(counts)) == charged(self.spent(*old(counts)), amount),
            final(counts)@ == old(counts).with(
                self.charges(),
                charged(self.spent(*old(counts)), amount),
            ),
            r is Err <==> overdrawn(self.spent(*old(counts)), amount, self.allowed())
                && self.allowed() != u64::MAX,
            r matches Err(message) ==> message@ == "plugin exceeded its instruction limit of "@ + text::decimal(self.allowed() as nat),
    {
        let used: u64 = counts.get(self.account);
        let over = goes_over(used, amount, self.limit);
        counts.set(self.account, add_round(used, amount));
        if over {
            let mut out = "plugin exceeded its instruction limit of ".to_owned();
            out.append(text::number(self.limit).as_str());
            return Err(out);
        }
        Ok(())
    }
}

/// How many instructions pass between two charges: often enough to stop a tight loop
/// promptly, without a charge for every instruction.
pub fn charge_step(limit: u64) -> (r: u32)
    ensures
        r as int == if limit < 1 {
            1int
        } else if limit > 1000 {
            1000int
        } else {
            limit as int
        },
{
    if limit < 1 {
        1
    } else if limit > 1_000 {
        1_000
    } else {
        limit as u32
    }
}

/// A call that charges an allowance step by step is stopped at the first step that takes it
/// over, and at none before: after `steps` charges of `step` from a reset allowance, the last
/// is refused exactly when their sum is over the limit.
pub proof fn charges_add_up(step: u64, steps: nat, limit: u64)
    requires
        (steps + 1) * step <= u64::MAX,
    ensures
        spent_after(step, steps) as int == steps * step,
        overdrawn(spent_after(step, steps), step, limit) <==> (steps + 1) * step > limit,
    decreases steps,
{
    if steps > 0 {
        assert(steps * step == (steps - 1) * step + step) by (nonlinear_arith)
            requires
                steps > 0,
        ;
        assert((steps + 1) * step == steps * step + step) by (nonlinear_arith);
        charges_add_up(step, (steps - 1) as nat, limit);
        assert(0 <= steps * step) by (nonlinear_arith);
        assert(spent_after(step, steps) == charged(spent_after(step, (steps - 1) as nat), step));
        let sum = (steps * step) as int;
        assert(sum % 0x1_0000_0000_0000_0000 == sum) by (nonlinear_arith)
            requires
                0 <= sum <= 0xffff_ffff_ffff_ffff,
        ;
    } else {
        assert(0 * step == 0) by (nonlinear_arith);
        assert((0 + 1) * step == step) by (nonlinear_arith);
    }
}

/// What a reset allowance holds after a number of equal charges.
pub open spec fn spent_after(step: u64, steps: nat) -> u64
    decreases steps,
{
    if steps == 0 {
        0
    } else {
        charged(spent_after(step, (steps - 1) as nat), step)
    }
}

/// Clones share one count: a charge or a reset through one handle is read through every copy of
/// it, and through no handle of another account.
pub proof fn clones_share_one_count(
    budget: CallBudget,
    clone: CallBudget,
    other: CallBudget,
    before: Counts,
    after: Counts,
    count: u64,
)
    requires
        clone == budget,
        budget.opened_in(before),
        other.charges() != budget.charges(),
        after@ == before.with(budget.charges(), count),
    ensures
        budget.spent(after) == count,
        clone.spent(after) == count,
        clone.allowed() == budget.allowed(),
        other.spent(after) == other.spent(before),
{
}

/// Clones of a state's budget share one count.
pub proof fn members_share_one_count(
    budget: Budget,
    clone: Budget,
    other: Budget,
    before: Counts,
    after: Counts,
    count: u64,
)
    requires
        clone == budget,
        budget.opened_in(before),
        other.charges() != budget.charges(),
        after@ == before.with(budget.charges(), count),
    ensures
        budget.spent(after) == count,
        clone.spent(after) == count,
        clone.allowed() == budget.allowed(),
        other.spent(after) == other.spent(before),
{
}

} // verus!
