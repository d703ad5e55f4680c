//! PAR2 verification and repair: what follows from what was found.

use vstd::prelude::*;
use vstd::string::StringExecFns;

use crate::stage::{stage_result, stage_view, StageResult, StageStatus, StageView};
use crate::text::{decimal, decimal_text};

verus! {

/// Result of a par2 verify/repair operation.
#[derive(Debug)]
pub struct Par2Result {
    /// Whether all files are intact now.
    pub success: bool,
    /// How many blocks were damaged or missing.
    pub blocks_needed: u32,
    /// How many recovery blocks there are.
    pub blocks_available: u32,
    /// Whether files were repaired.
    pub repaired: bool,
    /// What there is to say about it.
    pub message: String,
}

/// What a `Par2Result` holds.
pub struct Par2View {
    pub success: bool,
    pub blocks_needed: u32,
    pub blocks_available: u32,
    pub repaired: bool,
    pub message: Seq<char>,
}

impl View for Par2Result {
    type V = Par2View;

    open spec fn view(&self) -> Par2View {
        Par2View {
            success: self.success,
            blocks_needed: self.blocks_needed,
            blocks_available: self.blocks_available,
            repaired: self.repaired,
            message: self.message@,
        }
    }
}

/// Whether recovery blocks suffice for lost blocks: one for each.
pub open spec fn covers(available: nat, needed: nat) -> bool {
    needed <= available
}

/// Return whether the available recovery blocks can cover verified damage.
pub fn recovery_can_cover(blocks_needed: u32, blocks_available: u32) -> (covered: bool)
    ensures
        covered == covers(blocks_available as nat, blocks_needed as nat),
{
    blocks_needed <= blocks_available
}

/// What a verification found in a PAR2 set.
#[derive(Debug)]
pub struct VerifyReport {
    /// How many files are intact.
    pub intact: usize,
    /// For each damaged file, how many of its blocks are damaged.
    pub damaged: Vec<u32>,
    /// For each missing file, how many blocks it has.
    pub missing: Vec<u32>,
    /// How many recovery blocks there are.
    pub recovery_blocks_available: u32,
}

/// The sum of block counts.
pub open spec fn block_sum(counts: Seq<u32>) -> nat
    decreases counts.len(),
{
    if counts.len() == 0 {
        0
    } else {
        block_sum(counts.drop_last()) + counts.last() as nat
    }
}

impl VerifyReport {
    /// Whether no file is damaged or missing.
    pub open spec fn is_correct(&self) -> bool {
        self.damaged@.len() == 0 && self.missing@.len() == 0
    }

    /// How many blocks are damaged or missing.
    pub open spec fn lost_blocks(&self) -> nat {
        block_sum(self.damaged@) + block_sum(self.missing@)
    }
}

/// `rust_par2::VerifyResult::all_correct` holds where the result lists neither
/// a damaged nor a missing file. Of the files it is given the block counts.
#[verifier::external_body]
fn outside_all_correct(damaged: &Vec<u32>, missing: &Vec<u32>) -> (correct: bool)
    ensures
        correct == (damaged@.len() == 0 && missing@.len() == 0),
{
    let damaged = damaged.iter().map(|count| rust_par2::DamagedFile {
        filename: String::new(),
        size: 0,
        damaged_block_count: *count,
        total_block_count: *count,
        damaged_block_indices: Vec::new(),
    }).collect();
    let missing = missing.iter().map(|count| rust_par2::MissingFile {
        filename: String::new(),
        expected_size: 0,
        block_count: *count,
    }).collect();
    let (intact, recovery_blocks_available, repair_possible) = (Vec::new(), 0, false);
    rust_par2::VerifyResult { intact, damaged, missing, recovery_blocks_available, repair_possible }
        .all_correct()
}

/// `rust_par2::VerifyResult::blocks_needed` adds up the damaged blocks of the
/// damaged files and the blocks of the missing ones. Of the files it is given
/// the block counts. A sum beyond `u32` is left out: the addition overflows.
#[verifier::external_body]
fn outside_blocks_needed(damaged: &Vec<u32>, missing: &Vec<u32>) -> (needed: u32)
    requires
        block_sum(damaged@) + block_sum(missing@) <= u32::MAX,
    ensures
        needed == block_sum(damaged@) + block_sum(missing@),
{
    let damaged = damaged.iter().map(|count| rust_par2::DamagedFile {
        filename: String::new(),
        size: 0,
        damaged_block_count: *count,
        total_block_count: *count,
        damaged_block_indices: Vec::new(),
    }).collect();
    let missing = missing.iter().map(|count| rust_par2::MissingFile {
        filename: String::new(),
        expected_size: 0,
        block_count: *count,
    }).collect();
    let (intact, recovery_blocks_available, repair_possible) = (Vec::new(), 0, false);
    rust_par2::VerifyResult { intact, damaged, missing, recovery_blocks_available, repair_possible }
        .blocks_needed()
}

/// The damage that a verification found.
#[derive(Debug, Clone, Copy, PartialEq, Eq, Structural)]
pub struct Damage {
    /// How many files are intact.
    pub intact: usize,
    /// How many files are damaged.
    pub damaged: usize,
    /// How many files are missing.
    pub missing: usize,
    /// How many blocks are damaged or missing.
    pub blocks_needed: u32,
    /// How many recovery blocks there are.
    pub blocks_available: u32,
}

/// The damage that a verification found, none if all files are correct.
pub fn damage_of(report: &VerifyReport) -> (damage: Option<Damage>)
    requires
        report.lost_blocks() <= u32::MAX,
    ensures
        damage is None <==> report.is_correct(),
        damage matches Some(d) ==> {
            &&& d.intact == report.intact
            &&& d.damaged == report.damaged@.len()
            &&& d.missing == report.missing@.len()
            &&& d.blocks_needed == report.lost_blocks()
            &&& d.blocks_available == report.recovery_blocks_available
        },
        damage matches Some(d) ==> d == damage_view(*report),
{
    if outside_all_correct(&report.damaged, &report.missing) {
        return None;
    }
    Some(
        Damage {
            intact: report.intact,
            damaged: report.damaged.len(),
            missing: report.missing.len(),
            blocks_needed: outside_blocks_needed(&report.damaged, &report.missing),
            blocks_available: report.recovery_blocks_available,
        },
    )
}

/// How an attempt at a repair ended.
#[derive(Debug)]
pub enum RepairOutcome {
    /// The repair ran through.
    Completed { success: bool, message: String },
    /// The repair was given up.
    Failed { error: String },
}

/// What is to be done after a verification.
#[derive(Debug)]
pub enum Par2Step {
    /// Nothing: this is the result.
    Done(Par2Result),
    /// A repair, whose outcome then goes to `after_repair`.
    Repair(Damage),
}

/// What a `Par2Step` holds.
pub enum Par2StepView {
    Done(Par2View),
    Repair(Damage),
}

impl View for Par2Step {
    type V = Par2StepView;

    open spec fn view(&self) -> Par2StepView {
        match self {
            Par2Step::Done(result) => Par2StepView::Done(result@),
            Par2Step::Repair(damage) => Par2StepView::Repair(*damage),
        }
    }
}

/// The damage that a verification found, as it is told.
pub open spec fn damage_view(report: VerifyReport) -> Damage {
    Damage {
        intact: report.intact,
        damaged: report.damaged.len(),
        missing: report.missing.len(),
        blocks_needed: report.lost_blocks() as u32,
        blocks_available: report.recovery_blocks_available,
    }
}

/// What is to be done after a verification.
pub open spec fn verify_step(report: VerifyReport) -> Par2StepView {
    let available = report.recovery_blocks_available;
    let needed = report.lost_blocks();
    if report.is_correct() {
        Par2StepView::Done(
            Par2View {
                success: true,
                blocks_needed: 0,
                blocks_available: available,
                repaired: false,
                message: "All files correct"@,
            },
        )
    } else if covers(available as nat, needed) {
        Par2StepView::Repair(damage_view(report))
    } else {
        Par2StepView::Done(
            Par2View {
                success: false,
                blocks_needed: needed as u32,
                blocks_available: available,
                repaired: false,
                message: insufficient_text(needed as u32, available),
            },
        )
    }
}

/// The result after an attempt at a repair.
pub open spec fn repaired_view(damage: Damage, outcome: RepairOutcome) -> Par2View {
    Par2View {
        success: outcome matches RepairOutcome::Completed { success, .. } && success,
        blocks_needed: damage.blocks_needed,
        blocks_available: damage.blocks_available,
        repaired: outcome matches RepairOutcome::Completed { success, .. } && success,
        message: match outcome {
            RepairOutcome::Completed { message, .. } => message@,
            RepairOutcome::Failed { error } => error@,
        },
    }
}

/// What is said where the recovery blocks do not suffice.
pub open spec fn insufficient_text(needed: u32, available: u32) -> Seq<char> {
    "Insufficient recovery data: need "@ + decimal_text(needed as nat) + " blocks, have "@
        + decimal_text(available as nat)
}

/// What is to be done after a verification: nothing if all files are correct or
/// the recovery blocks do not suffice, otherwise a repair.
pub fn after_verify(report: &VerifyReport) -> (step: Par2Step)
    requires
        report.lost_blocks() <= u32::MAX,
    ensures
        step@ == verify_step(*report),
{
    let damage: Damage = match damage_of(report) {
        None => {
            return Par2Step::Done(
                Par2Result {
                    success: true,
                    blocks_needed: 0,
                    blocks_available: report.recovery_blocks_available,
                    repaired: false,
                    message: "All files correct".to_owned(),
                },
            );
        },
        Some(damage) => damage,
    };
    if !recovery_can_cover(damage.blocks_needed, damage.blocks_available) {
        let mut message: String = "Insufficient recovery data: need ".to_owned();
        message.append(decimal(damage.blocks_needed as u64).as_str());
        message.append(" blocks, have ");
        message.append(decimal(damage.blocks_available as u64).as_str());
        return Par2Step::Done(
            Par2Result {
                success: false,
                blocks_needed: damage.blocks_needed,
                blocks_available: damage.blocks_available,
                repaired: false,
                message,
            },
        );
    }
    Par2Step::Repair(damage)
}

/// The result after an attempt at a repair.
pub fn after_repair(damage: Damage, outcome: RepairOutcome) -> (result: Par2Result)
    ensures
        result@ == repaired_view(damage, outcome),
{
    match outcome {
        RepairOutcome::Completed { success, message } => Par2Result {
            success,
            blocks_needed: damage.blocks_needed,
            blocks_available: damage.blocks_available,
            repaired: success,
            message,
        },
        RepairOutcome::Failed { error } => Par2Result {
            success: false,
            blocks_needed: damage.blocks_needed,
            blocks_available: damage.blocks_available,
            repaired: false,
            message: error,
        },
    }
}

/// What is said of an index file that cannot be parsed.
pub fn parse_failure(error: &str) -> (text: String)
    ensures
        text@ == "PAR2 parse: "@ + error@,
{
    let mut text: String = "PAR2 parse: ".to_owned();
    text.append(error);
    text
}

/// The report of a repair stage that was run without a verification before it.
/// No outcome means that there were no par2 files.
pub open spec fn repair_view(
    outcome: Option<Result<Par2View, Seq<char>>>,
    duration_nanos: u64,
) -> StageView {
    match outcome {
        None => stage_view(
            "Repair"@,
            StageStatus::Skipped,
            "No par2 files found"@,
            duration_nanos,
        ),
        Some(Ok(result)) => stage_view(
            "Repair"@,
            if result.repaired || result.success {
                StageStatus::Success
            } else {
                StageStatus::Failed
            },
            result.message,
            duration_nanos,
        ),
        Some(Err(error)) => stage_view(
            "Repair"@,
            StageStatus::Failed,
            "par2 repair error: "@ + error,
            duration_nanos,
        ),
    }
}

/// What the outcome of a repair holds.
pub open spec fn outcome_view(outcome: Option<Result<Par2Result, String>>) -> Option<
    Result<Par2View, Seq<char>>,
> {
    match outcome {
        None => None,
        Some(Ok(result)) => Some(Ok(result@)),
        Some(Err(error)) => Some(Err(error@)),
    }
}

/// The report of a repair stage that was run without a verification before it.
pub fn repair_stage_result(
    outcome: Option<Result<Par2Result, String>>,
    duration_nanos: u64,
) -> (result: StageResult)
    ensures
        result@ == repair_view(outcome_view(outcome), duration_nanos),
{
    match outcome {
        None => stage_result(
            "Repair",
            StageStatus::Skipped,
            "No par2 files found".to_owned(),
            duration_nanos,
        ),
        Some(Ok(result)) => {
            let status: StageStatus = if result.repaired || result.success {
                StageStatus::Success
            } else {
                StageStatus::Failed
            };
            stage_result("Repair", status, result.message, duration_nanos)
        },
        Some(Err(error)) => {
            let mut message: String = "par2 repair error: ".to_owned();
            message.append(error.as_str());
            stage_result("Repair", StageStatus::Failed, message, duration_nanos)
        },
    }
}

/// The lost blocks are those of all damaged and all missing files, in any order.
pub proof fn law_blocks_add_up(a: Seq<u32>, b: Seq<u32>, count: u32)
    ensures
        block_sum(a + b) == block_sum(a) + block_sum(b),
        block_sum(a + b) == block_sum(b + a),
        block_sum(seq![count]) == count,
        block_sum(Seq::empty()) == 0,
    decreases a.len() + b.len(),
{
    reveal_with_fuel(block_sum, 2);
    assert(seq![count].drop_last().len() == 0);
    lemma_blocks_add(a, b);
    lemma_blocks_add(b, a);
}

proof fn lemma_blocks_add(a: Seq<u32>, b: Seq<u32>)
    ensures
        block_sum(a + b) == block_sum(a) + block_sum(b),
    decreases b.len(),
{
    if b.len() == 0 {
        assert(a + b =~= a);
    } else {
        lemma_blocks_add(a, b.drop_last());
        assert((a + b).drop_last() =~= a + b.drop_last());
    }
}

/// A repair is tried exactly if there is damage and one recovery block for each
/// lost block. Without damage the files are correct; with too few blocks nothing
/// is tried, and the numbers are told. More recovery blocks never turn a repair
/// down.
pub proof fn law_a_repair_is_tried_if_it_can_work(report: VerifyReport)
    requires
        block_sum(report.damaged@) + block_sum(report.missing@) <= u32::MAX,
    ensures
        ({
            let lost = block_sum(report.damaged@) + block_sum(report.missing@);
            let available = report.recovery_blocks_available;
            let damaged = report.damaged@.len() > 0 || report.missing@.len() > 0;
            &&& verify_step(report) is Repair <==> damaged && lost <= available
            &&& verify_step(report) matches Par2StepView::Repair(damage) ==> {
                &&& damage.intact == report.intact
                &&& damage.damaged == report.damaged@.len()
                &&& damage.missing == report.missing@.len()
                &&& damage.blocks_needed == lost
                &&& damage.blocks_available == available
            }
            &&& verify_step(report) matches Par2StepView::Done(result) ==> {
                &&& result.success == !damaged
                &&& !result.repaired
                &&& result.blocks_available == available
                &&& result.blocks_needed == if damaged {
                    lost
                } else {
                    0
                }
                &&& damaged ==> result.message == "Insufficient recovery data: need "@
                    + decimal_text(lost) + " blocks, have "@ + decimal_text(available as nat)
                &&& !damaged ==> result.message == "All files correct"@
            }
        }),
{
}

/// Recovery blocks suffice for as many lost blocks as they are and for fewer, and
/// not for more.
pub proof fn law_one_block_recovers_one(available: nat, needed: nat)
    ensures
        covers(available, available),
        needed <= available ==> covers(available, needed),
        needed > available ==> !covers(available, needed),
{
}

/// A repair has succeeded exactly if it ran through and says so; its own words are
/// handed on, and the numbers are those of the damage.
pub proof fn law_a_repair_is_believed(damage: Damage, success: bool, message: String, error: String)
    ensures
        ({
            let result = repaired_view(damage, RepairOutcome::Completed { success, message });
            &&& result.success == success
            &&& result.repaired == success
            &&& result.message == message@
            &&& result.blocks_needed == damage.blocks_needed
            &&& result.blocks_available == damage.blocks_available
        }),
        ({
            let result = repaired_view(damage, RepairOutcome::Failed { error });
            &&& !result.success
            &&& !result.repaired
            &&& result.message == error@
            &&& result.blocks_needed == damage.blocks_needed
            &&& result.blocks_available == damage.blocks_available
        }),
{
}

/// What a repair stage reports: it fails exactly if the repair could not be tried
/// for an error, or neither repaired anything nor found all intact; it is skipped
/// exactly without PAR2 files. What the repair says is handed on.
pub proof fn law_what_a_repair_stage_reports(
    result: Par2View,
    error: Seq<char>,
    duration_nanos: u64,
)
    ensures
        repair_view(None, duration_nanos) == (StageView {
            name: "Repair"@,
            status: StageStatus::Skipped,
            message: Some("No par2 files found"@),
            duration_nanos,
        }),
        repair_view(Some(Err(error)), duration_nanos) == (StageView {
            name: "Repair"@,
            status: StageStatus::Failed,
            message: Some("par2 repair error: "@ + error),
            duration_nanos,
        }),
        repair_view(Some(Ok(result)), duration_nanos) == (StageView {
            name: "Repair"@,
            status: if result.repaired || result.success {
                StageStatus::Success
            } else {
                StageStatus::Failed
            },
            message: Some(result.message),
            duration_nanos,
        }),
{
}

} // verus!
