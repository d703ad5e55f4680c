//! What one stage of the pipeline reports.

use vstd::prelude::*;

verus! {

/// How a stage ended.
#[derive(Debug, Clone, Copy, PartialEq, Eq, Structural)]
pub enum StageStatus {
    /// The stage did its work.
    Success,
    /// The stage could not do its work.
    Failed,
    /// There was nothing for the stage to do.
    Skipped,
}

/// The report of one stage.
#[derive(Debug)]
pub struct StageResult {
    /// The name of the stage.
    pub name: String,
    /// How the stage ended.
    pub status: StageStatus,
    /// What there is to say about it.
    pub message: Option<String>,
    /// How long the stage took, in nanoseconds.
    pub duration_nanos: u64,
}

/// What a `StageResult` holds.
pub struct StageView {
    pub name: Seq<char>,
    pub status: StageStatus,
    pub message: Option<Seq<char>>,
    pub duration_nanos: u64,
}

impl View for StageResult {
    type V = StageView;

    open spec fn view(&self) -> StageView {
        StageView {
            name: self.name@,
            status: self.status,
            message: match self.message {
                Some(text) => Some(text@),
                None => None,
            },
            duration_nanos: self.duration_nanos,
        }
    }
}

/// The report of a stage that says something about how it ended.
pub open spec fn stage_view(
    name: Seq<char>,
    status: StageStatus,
    message: Seq<char>,
    duration_nanos: u64,
) -> StageView {
    StageView { name, status, message: Some(message), duration_nanos }
}

/// The reports of several stages.
pub open spec fn stage_views(stages: Seq<StageResult>) -> Seq<StageView> {
    stages.map_values(|s: StageResult| s@)
}

/// The report of a stage that says something about how it ended.
pub fn stage_result(
    name: &str,
    status: StageStatus,
    message: String,
    duration_nanos: u64,
) -> (result: StageResult)
    ensures
        result@ == stage_view(name@, status, message@, duration_nanos),
{
    StageResult { name: name.to_owned(), status, message: Some(message), duration_nanos }
}

/// A report says what it is given: name, status, message and duration; and a list
/// of reports keeps their number and order.
pub proof fn law_reports_say_what_they_are_given(
    name: Seq<char>,
    status: StageStatus,
    message: Seq<char>,
    duration_nanos: u64,
    stages: Seq<StageResult>,
    i: int,
)
    requires
        0 <= i < stages.len(),
    ensures
        stage_view(name, status, message, duration_nanos).name == name,
        stage_view(name, status, message, duration_nanos).status == status,
        stage_view(name, status, message, duration_nanos).message == Some(message),
        stage_view(name, status, message, duration_nanos).duration_nanos == duration_nanos,
        stage_views(stages).len() == stages.len(),
        stage_views(stages)[i].name == stages[i].name@,
        stage_views(stages)[i].status == stages[i].status,
        stage_views(stages)[i].duration_nanos == stages[i].duration_nanos,
        stages[i].message is None ==> stage_views(stages)[i].message is None,
        stages[i].message matches Some(text) ==> stage_views(stages)[i].message == Some(text@),
{
}

} // verus!
