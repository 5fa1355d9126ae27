//! The handles of the caller: that the outputs of any run of records can be
//! carried out, one after the other, by a caller that keeps one handle for
//! each open file.

use crate::cache::DestinationView;
use crate::clock::MomentView;
use crate::logger::{
    handles_past, has_its_handle, lemma_record_keeps_logger_valid,
    lemma_writes_find_their_handles, maybe, LoggerView, OutputView,
};
use crate::record::RecordView;
use vstd::prelude::*;

verus! {

/// Whether a caller that holds the handles `open` can carry out the outputs in
/// order: each write finds the handle of its file open or has it opened, and
/// each handle to close is one that the caller holds.
pub open spec fn can_carry_out(open: Set<DestinationView>, outputs: Seq<OutputView>) -> bool
    decreases outputs.len(),
{
    if outputs.len() == 0 {
        true
    } else {
        match outputs[0] {
            OutputView::File(write) => has_its_handle(open, write) && can_carry_out(
                handles_past(open, write),
                outputs.drop_first(),
            ),
            OutputView::Console(_) => can_carry_out(open, outputs.drop_first()),
        }
    }
}

/// The handles that the caller holds after it carried out the outputs.
pub open spec fn handles_left(open: Set<DestinationView>, outputs: Seq<OutputView>) -> Set<
    DestinationView,
>
    decreases outputs.len(),
{
    if outputs.len() == 0 {
        open
    } else {
        match outputs[0] {
            OutputView::File(write) => handles_left(
                handles_past(open, write),
                outputs.drop_first(),
            ),
            OutputView::Console(_) => handles_left(open, outputs.drop_first()),
        }
    }
}

/// The logger after a run of records, each at its time.
pub open spec fn after_run(state: LoggerView, run: Seq<(RecordView, MomentView)>) -> LoggerView
    decreases run.len(),
{
    if run.len() == 0 {
        state
    } else {
        after_run(state.after(run[0].0, run[0].1), run.drop_first())
    }
}

/// What a run of records demands, in order.
pub open spec fn outputs_of_run(state: LoggerView, run: Seq<(RecordView, MomentView)>) -> Seq<
    OutputView,
>
    decreases run.len(),
{
    if run.len() == 0 {
        Seq::empty()
    } else {
        state.outputs(run[0].0, run[0].1) + outputs_of_run(
            state.after(run[0].0, run[0].1),
            run.drop_first(),
        )
    }
}

/// Outputs that follow one another are carried out one part after the other.
pub proof fn lemma_carry_out_in_parts(
    open: Set<DestinationView>,
    first: Seq<OutputView>,
    second: Seq<OutputView>,
)
    ensures
        can_carry_out(open, first + second) <==> can_carry_out(open, first) && can_carry_out(
            handles_left(open, first),
            second,
        ),
        handles_left(open, first + second) == handles_left(handles_left(open, first), second),
    decreases first.len(),
{
    if first.len() == 0 {
        assert(first + second =~= second);
    } else {
        assert((first + second).drop_first() =~= first.drop_first() + second);
        let next = match first[0] {
            OutputView::File(write) => handles_past(open, write),
            OutputView::Console(_) => open,
        };
        lemma_carry_out_in_parts(next, first.drop_first(), second);
    }
}

/// The outputs of one record can be carried out by a caller that holds a
/// handle for each open file of a valid logger, and no other; after them it
/// holds a handle for each file that is then open.
pub proof fn lemma_record_can_be_carried_out(
    state: LoggerView,
    record: RecordView,
    now: MomentView,
)
    requires
        state.is_valid(),
    ensures
        can_carry_out(state.open_files.to_set(), state.outputs(record, now)),
        handles_left(state.open_files.to_set(), state.outputs(record, now)) == state.after(
            record,
            now,
        ).open_files.to_set(),
{
    lemma_writes_find_their_handles(state, record, now);
    let held = state.open_files.to_set();
    let between = state.open_after_key(record).to_set();
    let key = maybe(state.key_write(record, now));
    let console = maybe(state.console_line(record, now));
    let daily = maybe(state.daily_write(record, now));
    lemma_at_most_one(held, state.key_write(record, now));
    lemma_at_most_one(between, state.console_line(record, now));
    lemma_at_most_one(between, state.daily_write(record, now));
    lemma_carry_out_in_parts(held, key, console);
    lemma_carry_out_in_parts(held, key + console, daily);
}

/// Carrying out at most one output.
proof fn lemma_at_most_one(open: Set<DestinationView>, output: Option<OutputView>)
    ensures
        can_carry_out(open, maybe(output)) <==> (output matches Some(OutputView::File(write))
            ==> has_its_handle(open, write)),
        handles_left(open, maybe(output)) == match output {
            Some(OutputView::File(write)) => handles_past(open, write),
            _ => open,
        },
{
    let outputs = maybe(output);
    if outputs.len() > 0 {
        assert(outputs.drop_first().len() == 0);
        reveal_with_fuel(can_carry_out, 2);
        reveal_with_fuel(handles_left, 2);
    }
}

/// The outputs of any run of records can be carried out, one after the other,
/// by a caller that starts with a handle for each open file of a valid logger,
/// and no other. The logger is valid after the run, and the caller then holds
/// one handle for each file that is open: never more than the logger may
/// have open, however many files the run wrote to.
pub proof fn lemma_run_can_be_carried_out(state: LoggerView, run: Seq<(RecordView, MomentView)>)
    requires
        state.is_valid(),
    ensures
        after_run(state, run).is_valid(),
        can_carry_out(state.open_files.to_set(), outputs_of_run(state, run)),
        handles_left(state.open_files.to_set(), outputs_of_run(state, run)) == after_run(
            state,
            run,
        ).open_files.to_set(),
        after_run(state, run).open_files.to_set().len() == after_run(state, run).open_files.len(),
    decreases run.len(),
{
    if run.len() == 0 {
        state.open_files.unique_seq_to_set();
    } else {
        let next = state.after(run[0].0, run[0].1);
        lemma_record_keeps_logger_valid(state, run[0].0, run[0].1);
        lemma_record_can_be_carried_out(state, run[0].0, run[0].1);
        lemma_run_can_be_carried_out(next, run.drop_first());
        lemma_carry_out_in_parts(
            state.open_files.to_set(),
            state.outputs(run[0].0, run[0].1),
            outputs_of_run(next, run.drop_first()),
        );
    }
}

} // verus!
