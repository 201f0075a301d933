//! How history entries are shown.
use crate::item::HistoryItem;
use crate::text::opt_text;
use crate::timestamp::{Timestamp, NANOS_PER_SEC};
use vstd::prelude::*;
use vstd::string::*;

verus! {

/// The whole seconds between the epoch and `ts`, negative before the epoch. What is left of a second
/// does not count, on either side.
pub open spec fn seconds_of(ts: Timestamp) -> int {
    if ts.nanos >= 0 {
        ts.nanos as int / NANOS_PER_SEC as int
    } else {
        -((-ts.nanos as int) / NANOS_PER_SEC as int)
    }
}

/// The seconds since the epoch.
pub fn time_to_seconds(ts: Timestamp) -> (seconds: i64)
    requires
        -i64::MAX <= seconds_of(ts) <= i64::MAX,
    ensures
        seconds == seconds_of(ts),
{
    if ts.nanos >= 0 {
        // after epoch
        (ts.nanos / NANOS_PER_SEC) as i64
    } else {
        // before epoch
        assert(ts.nanos > i128::MIN);
        let before: i128 = (-ts.nanos) / NANOS_PER_SEC;
        -(before as i64)
    }
}

/// What stands behind each record.
pub open spec fn record_end(null_terminate: bool) -> char {
    if null_terminate {
        '\0'
    } else {
        '\n'
    }
}

/// The record of an entry with the text `command`: the time, if there is one, then the command, with colors
/// where there are any, and the end of the record.
pub open spec fn record_text(
    command: Seq<char>,
    timestamp: Option<Seq<char>>,
    highlighted: Option<Seq<char>>,
    null_terminate: bool,
) -> Seq<char> {
    let time = match timestamp {
        Some(text) => text,
        None => Seq::empty(),
    };
    let shown = match highlighted {
        Some(text) => text,
        None => command,
    };
    time + shown + seq![record_end(null_terminate)]
}

/// Formats a single history record, including a trailing newline (or null character).
///
/// `timestamp` is the time of the entry as text, where one is to be shown and could be made;
/// `highlighted` is its command with colors, where they are wanted.
pub fn format_history_record(
    item: &HistoryItem,
    timestamp: Option<String>,
    highlighted: Option<String>,
    null_terminate: bool,
) -> (record: String)
    ensures
        record@ == record_text(
            item.text(),
            opt_text(timestamp),
            opt_text(highlighted),
            null_terminate,
        ),
{
    let mut result = String::new();
    if let Some(text) = &timestamp {
        result.append(text.as_str());
    }
    if let Some(command) = &highlighted {
        result.append(command.as_str());
    } else {
        result.append(item.str());
    }
    result.push(
        if null_terminate {
            '\0'
        } else {
            '\n'
        },
    );
    result
}

/// The seconds of a time lie between the epoch and it, less than a second away from it, on either side.
pub proof fn seconds_go_towards_the_epoch(ts: Timestamp)
    ensures
        ts.nanos >= 0 ==> 0 <= seconds_of(ts) * 1_000_000_000 <= ts.nanos < seconds_of(ts)
            * 1_000_000_000 + 1_000_000_000,
        ts.nanos < 0 ==> seconds_of(ts) * 1_000_000_000 - 1_000_000_000 < ts.nanos <= seconds_of(ts)
            * 1_000_000_000 <= 0,
{
}

/// A record ends in a newline or a null character, as asked for. Before that stands the command, or its colored
/// form where there is one, and before that the time, where there is one.
pub proof fn a_record_shows_time_and_command(
    command: Seq<char>,
    time: Seq<char>,
    highlighted: Seq<char>,
    null_terminate: bool,
)
    ensures
        ({
            let end = if null_terminate {
                seq!['\0']
            } else {
                seq!['\n']
            };
            &&& record_text(command, None, None, null_terminate) == command + end
            &&& record_text(command, Some(time), None, null_terminate) == time + command + end
            &&& record_text(command, None, Some(highlighted), null_terminate) == highlighted + end
            &&& record_text(command, Some(time), Some(highlighted), null_terminate) == time
                + highlighted + end
        }),
{
    let end = if null_terminate {
        seq!['\0']
    } else {
        seq!['\n']
    };
    assert(record_text(command, None, None, null_terminate) =~= command + end);
    assert(record_text(command, None, Some(highlighted), null_terminate) =~= highlighted + end);
}

} // verus!
