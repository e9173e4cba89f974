//! Writing a Procfile out and reading it back.
//!
//! Reading what was written gives the names and commands that were written.
//! One thing stands in the way: a carriage return in front of a line feed
//! belongs to the line ending, so a command that ends in a carriage return
//! loses it when another line is written after it. The laws leave such
//! entries out.

use vstd::prelude::*;
use crate::listing::{lemma_find_at, lemma_load_find, lemma_load_lines, lemma_put_at};
use crate::procfile::{
    declared, entry_lines, entry_text, find, has_name, lemma_line_entry_of, line_entry, listing,
    load_lines, ordered, parse_text, render, text_lines, EntryView,
};
use crate::text::{
    all_in, join_lines, lemma_replace_absent, lemma_split_join, lemma_split_one, lex_lt, occurs,
    CharClass,
};

verus! {

/// The names and commands of the entries, in their order.
pub open spec fn pairs(entries: Seq<EntryView>) -> Seq<(Seq<char>, Seq<char>)> {
    entries.map_values(|entry: EntryView| (entry.name, entry.command))
}

/// The command of an optional entry.
pub open spec fn command_of(entry: Option<EntryView>) -> Option<Seq<char>> {
    match entry {
        Some(entry) => Some(entry.command),
        None => None,
    }
}

/// The entries as they are read from the lines that they are written as:
/// each with that line as its line.
pub open spec fn rewritten(entries: Seq<EntryView>) -> Seq<EntryView> {
    entries.map_values(
        |entry: EntryView|
            EntryView {
                line: entry_text(entry.name, entry.command),
                name: entry.name,
                command: entry.command,
            },
    )
}

/// Whether writing the entries out keeps every carriage return: no command
/// but the last ends in one.
pub open spec fn keeps_returns(entries: Seq<EntryView>) -> bool {
    forall|i: int|
        0 <= i < entries.len() - 1 ==> (#[trigger] entries[i]).command.last() != '\r'
}

/// No carriage return stands in front of a line feed.
spec fn crlf_free(text: Seq<char>) -> bool {
    forall|i: int| 0 <= i < text.len() - 1 ==> !(text[i] == '\r' && #[trigger] text[i + 1] == '\n')
}

/// A joined text ends as its last line ends, or in a line feed where that
/// line is empty.
proof fn lemma_join_end(lines: Seq<Seq<char>>)
    requires
        lines.len() > 0,
    ensures
        join_lines(lines).len() > 0 ==> join_lines(lines).last() == if lines.last().len() > 0 {
            lines.last().last()
        } else {
            '\n'
        },
{
}

/// Joining lines puts no carriage return in front of a line feed, where
/// the lines hold no line feed and none but the last ends in a carriage
/// return.
proof fn lemma_join_crlf_free(lines: Seq<Seq<char>>)
    requires
        forall|i: int| 0 <= i < lines.len() ==> all_in(#[trigger] lines[i], CharClass::Inline),
        forall|i: int|
            0 <= i < lines.len() - 1 ==> !((#[trigger] lines[i]).len() > 0 && lines[i].last()
                == '\r'),
    ensures
        crlf_free(join_lines(lines)),
    decreases lines.len(),
{
    if lines.len() > 1 {
        let init = lines.drop_last();
        let last = lines.last();
        assert(forall|i: int| 0 <= i < init.len() ==> (#[trigger] init[i]) == lines[i]);
        lemma_join_crlf_free(init);
        lemma_join_end(init);
        let front = join_lines(init);
        let text = join_lines(lines);
        assert(text =~= front + seq!['\n'] + last);
        assert forall|i: int| 0 <= i < text.len() - 1 implies !(text[i] == '\r'
            && #[trigger] text[i + 1] == '\n') by {
            if i + 1 < front.len() {
                assert(text[i] == front[i] && text[i + 1] == front[i + 1]);
            } else if i + 1 == front.len() {
                assert(text[i] == front.last());
                assert(init.last() == lines[lines.len() - 2]);
            } else {
                assert(text[i + 1] == last[i + 1 - front.len() - 1]);
            }
        }
    }
}

/// In a text without a carriage return in front of a line feed, the pair
/// of them occurs nowhere.
proof fn lemma_crlf_absent(text: Seq<char>)
    requires
        crlf_free(text),
    ensures
        !occurs(text, seq!['\r', '\n']),
{
    let crlf = seq!['\r', '\n'];
    assert forall|i: int| 0 <= i <= text.len() implies !crlf.is_prefix_of(
        #[trigger] text.skip(i),
    ) by {
        let rest = text.skip(i);
        if crlf.is_prefix_of(rest) {
            assert(text[i] == '\r' && text[i + 1] == '\n');
        }
    }
}

/// The lines that the entries of a listing are written as, read in turn,
/// give the entries back.
proof fn lemma_load_entry_lines(entries: Seq<EntryView>)
    requires
        listing(entries),
    ensures
        load_lines(Seq::empty(), entry_lines(entries)) == rewritten(entries),
    decreases entries.len(),
{
    let lines = entry_lines(entries);
    if entries.len() == 0 {
        assert(rewritten(entries) =~= Seq::<EntryView>::empty());
    } else {
        let init = entries.drop_last();
        let last = entries.last();
        assert(lines.drop_last() =~= entry_lines(init));
        lemma_load_entry_lines(init);
        let before = rewritten(init);
        lemma_line_entry_of(last.name, seq![' '], last.command);
        assert(last.name + seq![':'] + seq![' '] + last.command =~= entry_text(
            last.name,
            last.command,
        ));
        let entry = EntryView {
            line: entry_text(last.name, last.command),
            name: last.name,
            command: last.command,
        };
        lemma_rewritten_ordered(init);
        lemma_put_at(before, entry, before.len() as int);
    }
}

/// Rewriting keeps the order.
proof fn lemma_rewritten_ordered(entries: Seq<EntryView>)
    requires
        ordered(entries),
    ensures
        ordered(rewritten(entries)),
{
    let out = rewritten(entries);
    assert forall|i: int, j: int| 0 <= i < j < out.len() implies lex_lt(
        (#[trigger] out[i]).name,
        (#[trigger] out[j]).name,
    ) by {
        assert(out[i].name == entries[i].name && out[j].name == entries[j].name);
    }
}

/// Rewriting keeps the command under every name.
proof fn lemma_rewritten_find(entries: Seq<EntryView>, name: Seq<char>)
    requires
        ordered(entries),
    ensures
        command_of(find(rewritten(entries), name)) == command_of(find(entries, name)),
{
    let out = rewritten(entries);
    lemma_rewritten_ordered(entries);
    if has_name(entries, name) {
        let j = choose|j: int| 0 <= j < entries.len() && (#[trigger] entries[j]).name == name;
        assert(out[j].name == name);
        lemma_find_at(entries, j);
        lemma_find_at(out, j);
    } else if has_name(out, name) {
        let j = choose|j: int| 0 <= j < out.len() && (#[trigger] out[j]).name == name;
        assert(entries[j].name == name);
    }
}

/// Reading back what was written: the text that a listing is written as
/// declares the same names with the same commands, in the same order.
///
/// This holds of every listing in which no command but the last ends in a
/// carriage return.
pub proof fn lemma_read_back(entries: Seq<EntryView>)
    requires
        listing(entries),
        keeps_returns(entries),
    ensures
        parse_text(render(entries)) == rewritten(entries),
        pairs(parse_text(render(entries))) == pairs(entries),
{
    let lines = entry_lines(entries);
    let text = render(entries);
    lemma_join_crlf_free(lines);
    lemma_crlf_absent(text);
    lemma_replace_absent(text, seq!['\r', '\n'], seq!['\n']);
    if entries.len() == 0 {
        // The empty text is one empty line, and that declares nothing.
        lemma_split_one(text);
        assert(text_lines(text) =~= seq![text]);
        assert(line_entry(text) is None);
        assert(load_lines(Seq::empty(), seq![text].drop_last()) == Seq::<EntryView>::empty());
    } else {
        lemma_split_join(lines);
        lemma_load_entry_lines(entries);
    }
}

/// Round trip: a text, read, written out and read again, gives under every
/// name the command that the text declares for it, and nothing under a name
/// that the text does not declare. Lines that declare nothing are lost, and
/// of two lines with one name the later one counts; the entries come out in
/// the order of their names.
///
/// This holds of every text but one from which an entry other than the last
/// in that order has a command that ends in a carriage return.
pub proof fn lemma_round_trip(text: Seq<char>)
    requires
        keeps_returns(parse_text(text)),
    ensures
        listing(parse_text(text)),
        pairs(parse_text(render(parse_text(text)))) == pairs(parse_text(text)),
        forall|name: Seq<char>|
            command_of(#[trigger] find(parse_text(render(parse_text(text))), name)) == command_of(
                declared(text_lines(text), name),
            ),
{
    let read = parse_text(text);
    lemma_load_lines(Seq::empty(), text_lines(text));
    lemma_read_back(read);
    assert forall|name: Seq<char>|
        command_of(#[trigger] find(parse_text(render(read)), name)) == command_of(
            declared(text_lines(text), name),
        ) by {
        lemma_rewritten_find(read, name);
        lemma_load_find(Seq::empty(), text_lines(text), name);
    }
}

} // verus!
