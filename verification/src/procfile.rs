//! Procfiles: named commands, one to a line, read from and written back to
//! text.
//!
//! A line declares an entry where it has the form
//!
//! ```text
//! name ":" gap command
//! ```
//!
//! with a `name` of one or more ASCII letters, digits, `_` and `-`, a `gap`
//! of white space, as long as it can be, and a `command` of one or more
//! characters, none of them a line feed. Any other line declares nothing and
//! is passed over. So a command is never empty: a line with nothing after
//! the colon declares nothing, and one with only white space after it has
//! the last of that white space as its command.
//!
//! A [`Procfile`] keeps its entries in the order of their names, each name
//! once, whatever the order in which they were read; that is the order in
//! which it is written out. Names are ordered as strings are, character by
//! character.

use vstd::prelude::*;
use crate::listing::{
    lemma_find_at, lemma_put, lemma_put_at, lemma_without_absent, lemma_without_at,
};
use crate::text::{
    all_in, chars_of, is_space, join_lines, lemma_run_len, lemma_run_len_is, lex_less, lex_lt,
    lines_of, replace, replace_all, run_from, run_len, same, seqs_of, slice_of, split_lines,
    string_of, texts_of, CharClass,
};

verus! {

/// An entry, as plain values: the line it was read from, its name and its
/// command.
pub struct EntryView {
    pub line: Seq<char>,
    pub name: Seq<char>,
    pub command: Seq<char>,
}

/// Whether `name` can be the name of an entry: one or more name characters.
pub open spec fn valid_name(name: Seq<char>) -> bool {
    name.len() > 0 && all_in(name, CharClass::Name)
}

/// Whether `command` can be the command of an entry: one or more
/// characters, none of them a line feed, and no white space in front that
/// the gap could have taken (a command of one character may be white space).
pub open spec fn valid_command(command: Seq<char>) -> bool {
    &&& command.len() > 0
    &&& all_in(command, CharClass::Inline)
    &&& command.len() == 1 || !is_space(command[0])
}

/// Whether an entry has a valid name and a valid command.
pub open spec fn well_formed(entry: EntryView) -> bool {
    valid_name(entry.name) && valid_command(entry.command)
}

/// The entry that `line` declares, if it declares one.
pub open spec fn line_entry(line: Seq<char>) -> Option<EntryView> {
    let n = run_len(line, CharClass::Name) as int;
    if n == 0 || n >= line.len() || line[n] != ':' {
        None
    } else {
        let rest = line.skip(n + 1);
        let gap = run_len(rest, CharClass::Space) as int;
        let command = rest.skip(if gap < rest.len() { gap } else { rest.len() - 1 });
        if rest.len() == 0 || !all_in(command, CharClass::Inline) {
            None
        } else {
            Some(EntryView { line, name: line.take(n), command })
        }
    }
}

/// The grammar of a line: whether `line` is made of the valid name `name`, a
/// colon, a gap of white space and the valid command `command`.
pub open spec fn declares(line: Seq<char>, name: Seq<char>, command: Seq<char>) -> bool {
    &&& valid_name(name)
    &&& valid_command(command)
    &&& exists|gap: Seq<char>|
        all_in(gap, CharClass::Space) && line == name + seq![':'] + #[trigger] (gap + command)
}

/// The line that an entry is written as: its name, a colon, a space and its
/// command.
pub open spec fn entry_text(name: Seq<char>, command: Seq<char>) -> Seq<char> {
    name + seq![':', ' '] + command
}

/// The entries with a name below `name`.
pub open spec fn below(name: Seq<char>) -> spec_fn(EntryView) -> bool {
    |entry: EntryView| lex_lt(entry.name, name)
}

/// The entries with a name above `name`.
pub open spec fn above(name: Seq<char>) -> spec_fn(EntryView) -> bool {
    |entry: EntryView| lex_lt(name, entry.name)
}

/// The entries with another name than `name`.
pub open spec fn other_than(name: Seq<char>) -> spec_fn(EntryView) -> bool {
    |entry: EntryView| entry.name != name
}

/// Whether the entries stand in the order of their names, each name once.
pub open spec fn ordered(entries: Seq<EntryView>) -> bool {
    forall|i: int, j: int|
        0 <= i < j < entries.len() ==> lex_lt(
            (#[trigger] entries[i]).name,
            (#[trigger] entries[j]).name,
        )
}

/// Whether `entries` can be the entries of a Procfile: well formed, and in
/// the order of their names.
pub open spec fn listing(entries: Seq<EntryView>) -> bool {
    &&& ordered(entries)
    &&& forall|i: int| 0 <= i < entries.len() ==> well_formed(#[trigger] entries[i])
}

/// Whether some entry has the name `name`.
pub open spec fn has_name(entries: Seq<EntryView>, name: Seq<char>) -> bool {
    exists|i: int| 0 <= i < entries.len() && (#[trigger] entries[i]).name == name
}

/// The entry with the name `name`, if there is one.
pub open spec fn find(entries: Seq<EntryView>, name: Seq<char>) -> Option<EntryView> {
    if has_name(entries, name) {
        Some(entries[choose|i: int| 0 <= i < entries.len() && (#[trigger] entries[i]).name == name])
    } else {
        None
    }
}

/// `entries` with `entry` put in its place: after the entries with a lower
/// name and before those with a higher one. An entry of the same name is
/// replaced.
pub open spec fn put(entries: Seq<EntryView>, entry: EntryView) -> Seq<EntryView> {
    entries.filter(below(entry.name)) + seq![entry] + entries.filter(above(entry.name))
}

/// `entries` without the entry named `name`.
pub open spec fn without(entries: Seq<EntryView>, name: Seq<char>) -> Seq<EntryView> {
    entries.filter(other_than(name))
}

/// `entries` after the lines have been read in turn: each line that declares
/// an entry puts it in, the others change nothing.
pub open spec fn load_lines(entries: Seq<EntryView>, lines: Seq<Seq<char>>) -> Seq<EntryView>
    decreases lines.len(),
{
    if lines.len() == 0 {
        entries
    } else {
        let before = load_lines(entries, lines.drop_last());
        match line_entry(lines.last()) {
            Some(entry) => put(before, entry),
            None => before,
        }
    }
}

/// The entry that the lines declare for `name`: that of the last line that
/// declares the name, if there is one.
pub open spec fn declared(lines: Seq<Seq<char>>, name: Seq<char>) -> Option<EntryView>
    decreases lines.len(),
{
    if lines.len() == 0 {
        None
    } else {
        match line_entry(lines.last()) {
            Some(entry) if entry.name == name => Some(entry),
            _ => declared(lines.drop_last(), name),
        }
    }
}

/// The lines of a Procfile text: a carriage return in front of a line feed
/// belongs to the line ending.
pub open spec fn text_lines(text: Seq<char>) -> Seq<Seq<char>> {
    split_lines(replace_all(text, seq!['\r', '\n'], seq!['\n']))
}

/// The entries that a Procfile text declares.
pub open spec fn parse_text(text: Seq<char>) -> Seq<EntryView> {
    load_lines(Seq::empty(), text_lines(text))
}

/// The lines that the entries are written as.
pub open spec fn entry_lines(entries: Seq<EntryView>) -> Seq<Seq<char>> {
    entries.map_values(|entry: EntryView| entry_text(entry.name, entry.command))
}

/// The text that the entries are written as: one line each, in their order,
/// with a line feed between two lines and none at the end.
pub open spec fn render(entries: Seq<EntryView>) -> Seq<char> {
    join_lines(entry_lines(entries))
}

/// The views of a sequence of entries.
pub open spec fn entries_of(entries: Seq<Entry>) -> Seq<EntryView> {
    entries.map_values(|entry: Entry| entry@)
}

/// What a line declares is well formed.
pub proof fn lemma_line_entry_well_formed(line: Seq<char>)
    ensures
        line_entry(line) matches Some(entry) ==> well_formed(entry) && entry.line == line,
{
    if line_entry(line) is Some {
        let n = run_len(line, CharClass::Name) as int;
        let rest = line.skip(n + 1);
        let gap = run_len(rest, CharClass::Space) as int;
        lemma_run_len(line, CharClass::Name);
        lemma_run_len(rest, CharClass::Space);
        if gap < rest.len() {
            assert(rest.skip(gap)[0] == rest[gap]);
        }
    }
}

/// The grammar, read forwards: a valid name, a colon, a gap of white space
/// and a valid command make a line that declares that name and command.
pub proof fn lemma_line_entry_of(name: Seq<char>, gap: Seq<char>, command: Seq<char>)
    requires
        valid_name(name),
        all_in(gap, CharClass::Space),
        valid_command(command),
    ensures
        line_entry(name + seq![':'] + gap + command) == Some(
            EntryView { line: name + seq![':'] + gap + command, name, command },
        ),
{
    let line = name + seq![':'] + gap + command;
    let n = name.len() as int;
    lemma_run_len_is(line, CharClass::Name, n);
    let rest = line.skip(n + 1);
    let g = gap.len() as int;
    if is_space(command[0]) {
        lemma_run_len_is(rest, CharClass::Space, rest.len() as int);
        assert(rest.skip(rest.len() - 1) =~= command);
    } else {
        lemma_run_len_is(rest, CharClass::Space, g);
        assert(rest.skip(g) =~= command);
    }
    assert(line.take(n) =~= name);
}

/// The grammar, read backwards: a line that declares an entry is made of
/// the entry's name, a colon, a gap of white space and the entry's command.
pub proof fn lemma_line_entry_form(line: Seq<char>) -> (gap: Seq<char>)
    requires
        line_entry(line) is Some,
    ensures
        all_in(gap, CharClass::Space),
        well_formed(line_entry(line)->0),
        line == line_entry(line)->0.name + seq![':'] + gap + line_entry(line)->0.command,
{
    lemma_line_entry_well_formed(line);
    let n = run_len(line, CharClass::Name) as int;
    let rest = line.skip(n + 1);
    let g = run_len(rest, CharClass::Space) as int;
    let cut = if g < rest.len() {
        g
    } else {
        rest.len() - 1
    };
    lemma_run_len(rest, CharClass::Space);
    let gap = rest.take(cut);
    gap
}

/// What a line declares is what the grammar says: a line declares a name
/// and a command exactly where it is made of them as the grammar asks, and
/// then it declares no other.
pub proof fn lemma_line_entry_grammar(line: Seq<char>, name: Seq<char>, command: Seq<char>)
    ensures
        declares(line, name, command) <==> line_entry(line) == Some(
            EntryView { line, name, command },
        ),
{
    if declares(line, name, command) {
        let gap = choose|gap: Seq<char>|
            all_in(gap, CharClass::Space) && line == name + seq![':'] + #[trigger] (gap + command);
        assert(name + seq![':'] + (gap + command) =~= name + seq![':'] + gap + command);
        lemma_line_entry_of(name, gap, command);
    }
    if line_entry(line) == Some(EntryView { line, name, command }) {
        let gap = lemma_line_entry_form(line);
        assert(name + seq![':'] + (gap + command) =~= name + seq![':'] + gap + command);
    }
}

/// A named command and the line it was read from.
#[derive(Debug)]
pub struct Entry {
    line: String,
    name: String,
    command: String,
}

impl View for Entry {
    type V = EntryView;

    closed spec fn view(&self) -> EntryView {
        EntryView { line: self.line@, name: self.name@, command: self.command@ }
    }
}

impl Entry {
    /// An entry with the given line, name and command, taken as they are:
    /// nothing is checked. The entries of a [`Procfile`] come from lines and
    /// are well formed.
    pub fn new(line: String, name: String, command: String) -> (entry: Entry)
        ensures
            entry@ == (EntryView { line: line@, name: name@, command: command@ }),
    {
        Entry { line, name, command }
    }

    /// The line that the entry was read from.
    pub fn line(&self) -> (line: &str)
        ensures
            line@ == self@.line,
    {
        self.line.as_str()
    }

    /// The name.
    pub fn name(&self) -> (name: &str)
        ensures
            name@ == self@.name,
    {
        self.name.as_str()
    }

    /// The command.
    pub fn command(&self) -> (command: &str)
        ensures
            command@ == self@.command,
    {
        self.command.as_str()
    }

    /// The entry that `line` declares, if it declares one.
    pub fn parse(line: &str) -> (entry: Option<Entry>)
        ensures
            match entry {
                Some(entry) => line_entry(line@) == Some(entry@),
                None => line_entry(line@) is None,
            },
    {
        let chars = chars_of(line);
        Entry::of_line(&chars)
    }

    /// The entry that the line with the characters `line` declares.
    fn of_line(line: &Vec<char>) -> (entry: Option<Entry>)
        ensures
            match entry {
                Some(entry) => line_entry(line@) == Some(entry@),
                None => line_entry(line@) is None,
            },
    {
        assert(line@.skip(0) =~= line@);
        let n = run_from(line, 0, CharClass::Name);
        if n == 0 || n >= line.len() || line[n] != ':' {
            return None;
        }
        let ghost rest = line@.skip(n + 1);
        if n + 1 == line.len() {
            return None;
        }
        let gap = run_from(line, n + 1, CharClass::Space);
        let from = if n + 1 + gap < line.len() {
            n + 1 + gap
        } else {
            line.len() - 1
        };
        let ghost command = rest.skip(if gap < rest.len() { gap as int } else { rest.len() - 1 });
        assert(command =~= line@.skip(from as int));
        let tail = run_from(line, from, CharClass::Inline);
        proof {
            lemma_run_len(command, CharClass::Inline);
        }
        if from + tail < line.len() {
            return None;
        }
        let name = slice_of(line, 0, n);
        let text = slice_of(line, from, line.len());
        Some(Entry { line: string_of(line), name: string_of(&name), command: string_of(&text) })
    }

    /// The line that the entry is written as: `name: command`.
    pub fn to_text(&self) -> (text: String)
        ensures
            text@ == entry_text(self@.name, self@.command),
    {
        let mut text = self.name.clone();
        text.push(':');
        text.push(' ');
        let command = chars_of(self.command.as_str());
        let mut i: usize = 0;
        while i < command.len()
            invariant
                i <= command.len(),
                command@ == self@.command,
                text@ == self@.name + seq![':', ' '] + self@.command.take(i as int),
            decreases command.len() - i,
        {
            text.push(command[i]);
            i = i + 1;
        }
        text
    }
}

/// Why no file could be chosen to load a Procfile from or save it to.
#[derive(Clone, Copy, Debug, PartialEq, Eq, Structural)]
pub enum ProcfileError {
    /// No file was named, and the Procfile has no source path to fall back
    /// on.
    NoPath,
}

/// What saving a Procfile writes, and where.
#[derive(Debug)]
pub struct FileImage {
    pub path: String,
    pub contents: String,
}

/// The file that is read or written: the one named, else the source path.
pub open spec fn target(filename: Option<Seq<char>>, source: Option<Seq<char>>) -> Option<
    Seq<char>,
> {
    match filename {
        Some(name) => Some(name),
        None => source,
    }
}

/// The view of an optional string slice.
pub open spec fn name_of(filename: Option<&str>) -> Option<Seq<char>> {
    match filename {
        Some(name) => Some(name@),
        None => None,
    }
}

/// The names of the entries, in their order.
pub open spec fn names_of(entries: Seq<EntryView>) -> Seq<Seq<char>> {
    entries.map_values(|entry: EntryView| entry.name)
}

/// Named commands, each name once, in the order of the names.
#[derive(Debug)]
pub struct Procfile {
    entries: Vec<Entry>,
    source: Option<String>,
}

impl View for Procfile {
    type V = Seq<EntryView>;

    closed spec fn view(&self) -> Seq<EntryView> {
        entries_of(self.entries@)
    }
}

impl Procfile {
    #[verifier::type_invariant]
    spec fn inv(self) -> bool {
        listing(self@)
    }

    /// The path of the file that the Procfile belongs to, if it has one.
    pub closed spec fn path(&self) -> Option<Seq<char>> {
        match self.source {
            Some(path) => Some(path@),
            None => None,
        }
    }

    /// The Procfile that `text` declares; without a text, the empty one. It
    /// has no source path.
    pub fn new(text: Option<&str>) -> (procfile: Procfile)
        ensures
            procfile@ == match text {
                Some(text) => parse_text(text@),
                None => Seq::empty(),
            },
            procfile.path() is None,
            listing(procfile@),
    {
        let mut procfile = Procfile { entries: Vec::new(), source: None };
        assert(procfile@ =~= Seq::<EntryView>::empty());
        match text {
            Some(text) => {
                procfile.parse(text);
            },
            None => {},
        }
        procfile
    }

    /// The number of entries.
    pub fn len(&self) -> (n: usize)
        ensures
            n == self@.len(),
    {
        self.entries.len()
    }

    /// Whether there is no entry.
    pub fn is_empty(&self) -> (b: bool)
        ensures
            b == (self@.len() == 0),
    {
        self.entries.len() == 0
    }

    /// The source path, if there is one.
    pub fn source_path(&self) -> (path: Option<&String>)
        ensures
            match path {
                Some(path) => self.path() == Some(path@),
                None => self.path() is None,
            },
    {
        self.source.as_ref()
    }

    /// Sets or clears the source path. The entries stay.
    pub fn set_source_path(&mut self, path: Option<String>)
        ensures
            final(self)@ == old(self)@,
            final(self).path() == match path {
                Some(path) => Some(path@),
                None => None,
            },
    {
        proof {
            use_type_invariant(&*self);
        }
        self.source = path;
    }

    /// Puts `entry` in its place, instead of an entry of the same name if
    /// there is one.
    fn insert(&mut self, entry: Entry)
        requires
            well_formed(entry@),
        ensures
            final(self)@ == put(old(self)@, entry@),
            final(self).path() == old(self).path(),
            listing(final(self)@),
    {
        proof {
            use_type_invariant(&*self);
            lemma_put(self@, entry@);
        }
        let name = chars_of(entry.name.as_str());
        let mut i: usize = 0;
        while i < self.entries.len() && lex_less(&chars_of(self.entries[i].name.as_str()), &name)
            invariant
                i <= self.entries.len(),
                forall|j: int| 0 <= j < i ==> lex_lt((#[trigger] self@[j]).name, name@),
            decreases self.entries.len() - i,
        {
            i = i + 1;
        }
        let replaces = i < self.entries.len() && same(
            &chars_of(self.entries[i].name.as_str()),
            &name,
        );
        proof {
            lemma_put_at(self@, entry@, i as int);
        }
        let mut entries = Vec::new();
        std::mem::swap(&mut entries, &mut self.entries);
        if replaces {
            entries[i] = entry;
        } else {
            entries.insert(i, entry);
        }
        assert(entries_of(entries@) =~= put(old(self)@, entry@));
        self.entries = entries;
    }

    /// Reads `text` into the Procfile: each line that declares an entry
    /// puts it in, and replaces an entry of the same name; the other lines
    /// are passed over.
    pub fn parse(&mut self, text: &str)
        ensures
            final(self)@ == load_lines(old(self)@, text_lines(text@)),
            final(self).path() == old(self).path(),
            listing(final(self)@),
    {
        proof {
            use_type_invariant(&*self);
        }
        let ghost start = self@;
        let ghost source = self.path();
        let mut crlf: Vec<char> = Vec::new();
        crlf.push('\r');
        crlf.push('\n');
        let mut lf: Vec<char> = Vec::new();
        lf.push('\n');
        assert(crlf@ =~= seq!['\r', '\n'] && lf@ =~= seq!['\n']);
        let lines = lines_of(&replace(&chars_of(text), &crlf, &lf));
        let mut i: usize = 0;
        while i < lines.len()
            invariant
                i <= lines.len(),
                listing(self@),
                self@ == load_lines(start, seqs_of(lines@).take(i as int)),
                self.path() == source,
            decreases lines.len() - i,
        {
            let ghost read = seqs_of(lines@).take(i + 1);
            assert(read.drop_last() =~= seqs_of(lines@).take(i as int));
            match Entry::of_line(&lines[i]) {
                Some(entry) => {
                    proof {
                        lemma_line_entry_well_formed(lines@[i as int]@);
                    }
                    self.insert(entry);
                },
                None => {},
            }
            i = i + 1;
        }
        assert(seqs_of(lines@).take(i as int) =~= seqs_of(lines@));
    }

    /// Replaces the entries by those that `text` declares.
    pub fn load(&mut self, text: &str)
        ensures
            final(self)@ == parse_text(text@),
            final(self).path() == old(self).path(),
            listing(final(self)@),
    {
        self.entries = Vec::new();
        assert(self@ =~= Seq::<EntryView>::empty());
        self.parse(text);
    }

    /// The position of the entry named `name`.
    fn position(&self, name: &Vec<char>) -> (at: Option<usize>)
        ensures
            listing(self@),
            match at {
                Some(i) => i < self@.len() && self@[i as int].name == name@,
                None => !has_name(self@, name@),
            },
    {
        proof {
            use_type_invariant(self);
        }
        let mut i: usize = 0;
        while i < self.entries.len()
            invariant
                i <= self.entries.len(),
                listing(self@),
                forall|j: int| 0 <= j < i ==> (#[trigger] self@[j]).name != name@,
            decreases self.entries.len() - i,
        {
            if same(&chars_of(self.entries[i].name.as_str()), name) {
                return Some(i);
            }
            i = i + 1;
        }
        None
    }

    /// The entry named `name`, if there is one.
    pub fn lookup(&self, name: &str) -> (entry: Option<&Entry>)
        ensures
            match entry {
                Some(entry) => find(self@, name@) == Some(entry@),
                None => find(self@, name@) is None,
            },
    {
        match self.position(&chars_of(name)) {
            Some(i) => {
                proof {
                    lemma_find_at(self@, i as int);
                }
                Some(&self.entries[i])
            },
            None => None,
        }
    }

    /// Takes out the entry named `name`, and says whether there was one.
    pub fn delete(&mut self, name: &str) -> (removed: bool)
        ensures
            removed == has_name(old(self)@, name@),
            final(self)@ == without(old(self)@, name@),
            final(self)@.len() == old(self)@.len() - if removed { 1int } else { 0 },
            !has_name(final(self)@, name@),
            find(final(self)@, name@) is None,
            listing(final(self)@),
            final(self).path() == old(self).path(),
    {
        match self.position(&chars_of(name)) {
            Some(i) => {
                proof {
                    lemma_without_at(self@, i as int);
                }
                let mut entries = Vec::new();
                std::mem::swap(&mut entries, &mut self.entries);
                let ghost before = entries_of(entries@);
                entries.remove(i);
                assert(entries_of(entries@) =~= before.remove(i as int));
                self.entries = entries;
                true
            },
            None => {
                proof {
                    lemma_without_absent(self@, name@);
                }
                false
            },
        }
    }

    /// The names of the entries, in their order.
    pub fn names(&self) -> (names: Vec<String>)
        ensures
            texts_of(names@) == names_of(self@),
    {
        let mut names: Vec<String> = Vec::new();
        let mut i: usize = 0;
        while i < self.entries.len()
            invariant
                i <= self.entries.len(),
                texts_of(names@) == names_of(self@).take(i as int),
            decreases self.entries.len() - i,
        {
            let ghost before = names@;
            names.push(self.entries[i].name.clone());
            assert(texts_of(names@) =~= texts_of(before).push(self@[i as int].name));
            i = i + 1;
        }
        names
    }

    /// The Procfile as text: a line `name: command` for each entry, in the
    /// order of the names, with a line feed between two lines and none at
    /// the end.
    pub fn to_text(&self) -> (text: String)
        ensures
            text@ == render(self@),
    {
        let mut text = String::new();
        let mut i: usize = 0;
        while i < self.entries.len()
            invariant
                i <= self.entries.len(),
                text@ == join_lines(entry_lines(self@).take(i as int)),
            decreases self.entries.len() - i,
        {
            let ghost done = entry_lines(self@).take(i as int);
            let ghost next = entry_lines(self@).take(i + 1);
            assert(next.drop_last() =~= done);
            if i > 0 {
                text.push('\n');
            }
            let line = chars_of(self.entries[i].to_text().as_str());
            let ghost head = text@;
            let mut k: usize = 0;
            while k < line.len()
                invariant
                    k <= line.len(),
                    text@ == head + line@.take(k as int),
                decreases line.len() - k,
            {
                text.push(line[k]);
                k = k + 1;
            }
            i = i + 1;
        }
        assert(entry_lines(self@).take(i as int) =~= entry_lines(self@));
        text
    }

    /// The file to read or write: the one named; without a name, the source
    /// path; without either, the error `NoPath`.
    pub fn guard_filename(&self, filename: Option<&str>) -> (path: Result<String, ProcfileError>)
        ensures
            match path {
                Ok(path) => target(name_of(filename), self.path()) == Some(path@),
                Err(error) => error == ProcfileError::NoPath && target(
                    name_of(filename),
                    self.path(),
                ) is None,
            },
    {
        match filename {
            Some(name) => Ok(name.to_owned()),
            None => match &self.source {
                Some(path) => Ok(path.clone()),
                None => Err(ProcfileError::NoPath),
            },
        }
    }

    /// What saving writes: the Procfile's text, to the file that
    /// `guard_filename` gives.
    pub fn save(&self, filename: Option<&str>) -> (image: Result<FileImage, ProcfileError>)
        ensures
            match image {
                Ok(image) => target(name_of(filename), self.path()) == Some(image.path@)
                    && image.contents@ == render(self@),
                Err(error) => error == ProcfileError::NoPath && target(
                    name_of(filename),
                    self.path(),
                ) is None,
            },
    {
        match self.guard_filename(filename) {
            Ok(path) => Ok(FileImage { path, contents: self.to_text() }),
            Err(error) => Err(error),
        }
    }
}

} // verus!
