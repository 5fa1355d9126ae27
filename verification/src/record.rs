//! The record that the backend takes, and the text of its line.

use crate::level::Level;
use vstd::prelude::*;
use vstd::string::*;

verus! {

/// One record as the logging facade hands it over.
#[derive(Debug, PartialEq, Eq)]
pub struct Record {
    pub level: Level,
    /// The category that the record belongs to.
    pub target: String,
    /// The message, already formatted.
    pub message: String,
    /// The structured attributes, as pairs of a key and a value. Only the key
    /// `uuid` is read; any other attribute is carried and has no effect.
    pub attributes: Vec<(String, String)>,
}

/// A record as the contracts speak of it.
pub struct RecordView {
    pub level: Level,
    pub target: Seq<char>,
    pub message: Seq<char>,
    pub attributes: Seq<(Seq<char>, Seq<char>)>,
}

impl View for Record {
    type V = RecordView;

    open spec fn view(&self) -> RecordView {
        RecordView {
            level: self.level,
            target: self.target@,
            message: self.message@,
            attributes: self.attributes@.map_values(|p: (String, String)| (p.0@, p.1@)),
        }
    }
}

/// The value of the first attribute with the given key.
pub open spec fn value_of(attributes: Seq<(Seq<char>, Seq<char>)>, key: Seq<char>) -> Option<
    Seq<char>,
>
    decreases attributes.len(),
{
    if attributes.len() == 0 {
        None
    } else if attributes[0].0 == key {
        Some(attributes[0].1)
    } else {
        value_of(attributes.drop_first(), key)
    }
}

impl RecordView {
    /// The correlation key: the value of the attribute `uuid`.
    pub open spec fn key(self) -> Option<Seq<char>> {
        value_of(self.attributes, "uuid"@)
    }
}

/// A key has a value exactly where an attribute carries it, and the value is
/// that of the first such attribute.
pub proof fn lemma_value_of(attributes: Seq<(Seq<char>, Seq<char>)>, key: Seq<char>)
    ensures
        match value_of(attributes, key) {
            Some(v) => exists|i: int|
                0 <= i < attributes.len() && #[trigger] attributes[i] == (key, v) && forall|j: int|
                    0 <= j < i ==> (#[trigger] attributes[j]).0 != key,
            None => forall|i: int| 0 <= i < attributes.len() ==> (#[trigger] attributes[i]).0 != key,
        },
    decreases attributes.len(),
{
    if attributes.len() > 0 && attributes[0].0 != key {
        let rest = attributes.drop_first();
        lemma_value_of(rest, key);
        match value_of(rest, key) {
            Some(v) => {
                let i = choose|i: int|
                    0 <= i < rest.len() && #[trigger] rest[i] == (key, v) && forall|j: int|
                        0 <= j < i ==> (#[trigger] rest[j]).0 != key;
                assert(attributes[i + 1] == rest[i]);
                assert forall|j: int| 0 <= j < i + 1 implies (#[trigger] attributes[j]).0
                    != key by {
                    if j > 0 {
                        assert(attributes[j] == rest[j - 1]);
                    }
                }
            },
            None => {
                assert forall|i: int| 0 <= i < attributes.len() implies (
                #[trigger] attributes[i]).0 != key by {
                    if i > 0 {
                        assert(attributes[i] == rest[i - 1]);
                    }
                }
            },
        }
    } else if attributes.len() > 0 {
        assert(attributes[0] == (key, attributes[0].1));
    }
}

/// The view of a text that may be absent.
pub open spec fn text_of(s: Option<&String>) -> Option<Seq<char>> {
    match s {
        Some(s) => Some(s@),
        None => None,
    }
}

impl Record {
    /// The correlation key of the record, if it carries one.
    pub fn correlation_key(&self) -> (key: Option<&String>)
        ensures
            text_of(key) == self@.key(),
    {
        let wanted = "uuid".to_owned();
        let ghost all = self@.attributes;
        let mut i: usize = 0;
        assert(all.skip(0) =~= all);
        while i < self.attributes.len()
            invariant
                i <= self.attributes.len(),
                all == self@.attributes,
                wanted@ == "uuid"@,
                value_of(all, wanted@) == value_of(all.skip(i as int), wanted@),
            decreases self.attributes.len() - i,
        {
            let ghost rest = all.skip(i as int);
            assert(rest[0] == all[i as int]);
            assert(rest.drop_first() =~= all.skip(i + 1));
            if self.attributes[i].0 == wanted {
                return Some(&self.attributes[i].1);
            }
            i += 1;
        }
        None
    }
}

/// The line of a record: the time, the severity and the target, then the
/// message, after the correlation key in angle brackets where there is one.
/// A line with a key has no space after its last colon, a line without has one.
pub open spec fn entry_text(
    stamp: Seq<char>,
    level: Level,
    target: Seq<char>,
    key: Option<Seq<char>>,
    message: Seq<char>,
) -> Seq<char> {
    match key {
        Some(k) => stamp + "-"@ + level.name() + "|["@ + target + "]<"@ + k + ">:"@ + message,
        None => stamp + "-"@ + level.name() + "|["@ + target + "]: "@ + message,
    }
}

/// The line as the console shows it: in the colour of its severity.
pub open spec fn colored_text(level: Level, entry: Seq<char>) -> Seq<char> {
    level.color() + entry + "\x1b[0m"@
}

/// Writes the line of a record: with the key in angle brackets where there is
/// one.
pub fn format_entry(
    stamp: &str,
    level: Level,
    target: &str,
    key: Option<&String>,
    message: &str,
) -> (entry: String)
    ensures
        entry@ == entry_text(stamp@, level, target@, text_of(key), message@),
{
    let mut entry = stamp.to_owned();
    entry.append("-");
    entry.append(level.as_str());
    entry.append("|[");
    entry.append(target);
    match key {
        Some(k) => {
            entry.append("]<");
            entry.append(k.as_str());
            entry.append(">:");
        },
        None => {
            entry.append("]: ");
        },
    }
    entry.append(message);
    entry
}

/// Wraps a line in the console colour of its severity.
pub fn colorize(level: Level, entry: &str) -> (colored: String)
    ensures
        colored@ == colored_text(level, entry@),
{
    let mut colored = level.color_code().to_owned();
    colored.append(entry);
    colored.append("\x1b[0m");
    colored
}

} // verus!
