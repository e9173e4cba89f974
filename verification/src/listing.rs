//! Facts about entries that are kept in the order of their names: where an
//! entry is put, what is left when one is taken out, and what looking up a
//! name gives.

use vstd::prelude::*;
use crate::procfile::{
    above, below, declared, find, has_name, line_entry, listing, load_lines, ordered, other_than,
    put, well_formed, without, EntryView,
};
use crate::procfile::lemma_line_entry_well_formed;
use crate::text::{lemma_lex_irreflexive, lemma_lex_total, lemma_lex_transitive, lex_lt};

verus! {

/// Filtering keeps a sequence whose elements all pass.
pub proof fn lemma_filter_all<A>(s: Seq<A>, p: spec_fn(A) -> bool)
    requires
        forall|i: int| 0 <= i < s.len() ==> p(#[trigger] s[i]),
    ensures
        s.filter(p) == s,
    decreases s.len(),
{
    reveal(Seq::filter);
    if s.len() > 0 {
        let init = s.drop_last();
        lemma_filter_all(init, p);
    }
}

/// Filtering empties a sequence none of whose elements pass.
pub proof fn lemma_filter_none<A>(s: Seq<A>, p: spec_fn(A) -> bool)
    requires
        forall|i: int| 0 <= i < s.len() ==> !p(#[trigger] s[i]),
    ensures
        s.filter(p) == Seq::<A>::empty(),
    decreases s.len(),
{
    reveal(Seq::filter);
    if s.len() > 0 {
        let init = s.drop_last();
        lemma_filter_none(init, p);
    }
}

/// Where the elements that pass are the first `i`, filtering keeps those.
pub proof fn lemma_filter_front<A>(s: Seq<A>, p: spec_fn(A) -> bool, i: int)
    requires
        0 <= i <= s.len(),
        forall|j: int| 0 <= j < i ==> p(#[trigger] s[j]),
        forall|j: int| i <= j < s.len() ==> !p(#[trigger] s[j]),
    ensures
        s.filter(p) == s.take(i),
{
    let front = s.take(i);
    let back = s.skip(i);
    assert(s =~= front + back);
    Seq::filter_distributes_over_add(front, back, p);
    lemma_filter_all(front, p);
    lemma_filter_none(back, p);
}

/// Where the elements that pass are those from position `i` on, filtering
/// keeps those.
pub proof fn lemma_filter_back<A>(s: Seq<A>, p: spec_fn(A) -> bool, i: int)
    requires
        0 <= i <= s.len(),
        forall|j: int| 0 <= j < i ==> !p(#[trigger] s[j]),
        forall|j: int| i <= j < s.len() ==> p(#[trigger] s[j]),
    ensures
        s.filter(p) == s.skip(i),
{
    let front = s.take(i);
    let back = s.skip(i);
    assert(s =~= front + back);
    Seq::filter_distributes_over_add(front, back, p);
    lemma_filter_none(front, p);
    lemma_filter_all(back, p);
}

/// In ordered entries no name occurs twice.
pub proof fn lemma_ordered_distinct(entries: Seq<EntryView>, i: int, j: int)
    requires
        ordered(entries),
        0 <= i < entries.len(),
        0 <= j < entries.len(),
        i != j,
    ensures
        entries[i].name != entries[j].name,
{
    lemma_lex_irreflexive(entries[i].name);
}

/// In ordered entries, the entry found at a position is the one that its
/// name finds.
pub proof fn lemma_find_at(entries: Seq<EntryView>, i: int)
    requires
        ordered(entries),
        0 <= i < entries.len(),
    ensures
        find(entries, entries[i].name) == Some(entries[i]),
{
    let name = entries[i].name;
    let j = choose|j: int| 0 <= j < entries.len() && (#[trigger] entries[j]).name == name;
    if j != i {
        lemma_ordered_distinct(entries, i, j);
    }
}

/// The place of a name in ordered entries: the entries before it are below
/// the name, those from it on are not.
pub proof fn lemma_place(entries: Seq<EntryView>, name: Seq<char>) -> (i: int)
    requires
        ordered(entries),
    ensures
        0 <= i <= entries.len(),
        forall|j: int| 0 <= j < i ==> lex_lt((#[trigger] entries[j]).name, name),
        forall|j: int| i <= j < entries.len() ==> !lex_lt((#[trigger] entries[j]).name, name),
    decreases entries.len(),
{
    if entries.len() == 0 {
        0
    } else {
        let n = entries.len() - 1;
        let last = entries[n];
        if lex_lt(last.name, name) {
            assert forall|j: int| 0 <= j < n + 1 implies lex_lt(
                (#[trigger] entries[j]).name,
                name,
            ) by {
                if j < n {
                    lemma_lex_transitive(entries[j].name, last.name, name);
                }
            }
            n + 1
        } else {
            let init = entries.drop_last();
            let i = lemma_place(init, name);
            assert forall|j: int| i <= j < entries.len() implies !lex_lt(
                (#[trigger] entries[j]).name,
                name,
            ) by {
                if j < n {
                    assert(init[j] == entries[j]);
                }
            }
            assert forall|j: int| 0 <= j < i implies lex_lt(
                (#[trigger] entries[j]).name,
                name,
            ) by {
                assert(init[j] == entries[j]);
            }
            i
        }
    }
}

/// Putting an entry into ordered entries, by the place `i` of its name: the
/// entries before the place stay, the entry follows, then the entries from
/// the place on, without the one of the same name.
pub proof fn lemma_put_at(entries: Seq<EntryView>, entry: EntryView, i: int)
    requires
        ordered(entries),
        0 <= i <= entries.len(),
        forall|j: int| 0 <= j < i ==> lex_lt((#[trigger] entries[j]).name, entry.name),
        i < entries.len() ==> !lex_lt(entries[i].name, entry.name),
    ensures
        put(entries, entry) == entries.take(i) + seq![entry] + entries.skip(
            if i < entries.len() && entries[i].name == entry.name {
                i + 1
            } else {
                i
            },
        ),
        ordered(put(entries, entry)),
{
    let name = entry.name;
    let k = if i < entries.len() && entries[i].name == name {
        i + 1
    } else {
        i
    };
    assert forall|j: int| i <= j < entries.len() implies !lex_lt(
        (#[trigger] entries[j]).name,
        name,
    ) by {
        if j > i && lex_lt(entries[j].name, name) {
            lemma_lex_transitive(entries[i].name, entries[j].name, name);
        }
    }
    lemma_filter_front(entries, below(name), i);
    assert forall|j: int| 0 <= j < k implies !(above(name))(#[trigger] entries[j]) by {
        lemma_lex_irreflexive(name);
        if j < i && lex_lt(name, entries[j].name) {
            lemma_lex_transitive(name, entries[j].name, name);
        }
    }
    assert forall|j: int| k <= j < entries.len() implies (above(name))(#[trigger] entries[j]) by {
        if k == i {
            lemma_lex_total(entries[i].name, name);
            if j > i {
                lemma_lex_transitive(name, entries[i].name, entries[j].name);
            }
        }
    }
    lemma_filter_back(entries, above(name), k);
    let out = put(entries, entry);
    assert(out =~= entries.take(i) + seq![entry] + entries.skip(k));
}

/// Putting a well-formed entry into a listing gives a listing in which the
/// entry's name finds the entry and every other name finds what it found
/// before.
pub proof fn lemma_put(entries: Seq<EntryView>, entry: EntryView)
    requires
        listing(entries),
        well_formed(entry),
    ensures
        listing(put(entries, entry)),
        find(put(entries, entry), entry.name) == Some(entry),
        forall|name: Seq<char>|
            name != entry.name ==> #[trigger] find(put(entries, entry), name) == find(
                entries,
                name,
            ),
        put(entries, entry).len() == if has_name(entries, entry.name) {
            entries.len()
        } else {
            entries.len() + 1
        },
{
    let i = lemma_place(entries, entry.name);
    lemma_put_at(entries, entry, i);
    let out = put(entries, entry);
    let k = if i < entries.len() && entries[i].name == entry.name {
        i + 1
    } else {
        i
    };
    lemma_find_at(out, i);
    if k == i {
        assert forall|j: int| 0 <= j < entries.len() implies (#[trigger] entries[j]).name
            != entry.name by {
            lemma_lex_irreflexive(entry.name);
            if j > i {
                assert((above(entry.name))(entries[j])) by {
                    lemma_lex_total(entries[i].name, entry.name);
                    lemma_lex_transitive(entry.name, entries[i].name, entries[j].name);
                }
            }
        }
    }
    assert forall|name: Seq<char>| name != entry.name implies #[trigger] find(out, name) == find(
        entries,
        name,
    ) by {
        if has_name(entries, name) {
            let j = choose|j: int| 0 <= j < entries.len() && (#[trigger] entries[j]).name == name;
            lemma_find_at(entries, j);
            if j < i {
                lemma_find_at(out, j);
            } else {
                lemma_find_at(out, i + 1 + (j - k));
            }
        } else if has_name(out, name) {
            let j = choose|j: int| 0 <= j < out.len() && (#[trigger] out[j]).name == name;
            if j < i {
                assert(out[j] == entries[j]);
            } else {
                assert(out[j] == entries[k + (j - i - 1)]);
            }
        }
    }
}

/// Taking the entry at position `i` out of ordered entries.
pub proof fn lemma_without_at(entries: Seq<EntryView>, i: int)
    requires
        ordered(entries),
        0 <= i < entries.len(),
    ensures
        without(entries, entries[i].name) == entries.remove(i),
        ordered(entries.remove(i)),
        !has_name(entries.remove(i), entries[i].name),
{
    let name = entries[i].name;
    let front = entries.take(i);
    let back = entries.skip(i + 1);
    let one = seq![entries[i]];
    assert(entries =~= front + one + back);
    Seq::filter_distributes_over_add(front + one, back, other_than(name));
    Seq::filter_distributes_over_add(front, one, other_than(name));
    assert forall|j: int| 0 <= j < front.len() implies (other_than(name))(#[trigger] front[j]) by {
        lemma_ordered_distinct(entries, i, j);
    }
    assert forall|j: int| 0 <= j < back.len() implies (other_than(name))(#[trigger] back[j]) by {
        lemma_ordered_distinct(entries, i, i + 1 + j);
    }
    lemma_filter_all(front, other_than(name));
    lemma_filter_all(back, other_than(name));
    lemma_filter_none(one, other_than(name));
    let out = entries.remove(i);
    assert forall|a: int, b: int| 0 <= a < b < out.len() implies lex_lt(
        (#[trigger] out[a]).name,
        (#[trigger] out[b]).name,
    ) by {
        let a0 = if a < i { a } else { a + 1 };
        let b0 = if b < i { b } else { b + 1 };
        assert(out[a] == entries[a0] && out[b] == entries[b0]);
    }
}

/// Taking out a name that no entry has changes nothing.
pub proof fn lemma_without_absent(entries: Seq<EntryView>, name: Seq<char>)
    requires
        !has_name(entries, name),
    ensures
        without(entries, name) == entries,
{
    lemma_filter_all(entries, other_than(name));
}

/// Reading lines into a listing gives a listing.
pub proof fn lemma_load_lines(entries: Seq<EntryView>, lines: Seq<Seq<char>>)
    requires
        listing(entries),
    ensures
        listing(load_lines(entries, lines)),
    decreases lines.len(),
{
    if lines.len() > 0 {
        let before = load_lines(entries, lines.drop_last());
        lemma_load_lines(entries, lines.drop_last());
        lemma_line_entry_well_formed(lines.last());
        match line_entry(lines.last()) {
            Some(entry) => {
                lemma_put(before, entry);
            },
            None => {},
        }
    }
}

/// What reading lines leaves under a name: the entry of the last line that
/// declares the name, and without such a line what was there before. So a
/// line that declares nothing changes nothing, and of two lines with one
/// name the later one counts.
pub proof fn lemma_load_find(entries: Seq<EntryView>, lines: Seq<Seq<char>>, name: Seq<char>)
    requires
        listing(entries),
    ensures
        find(load_lines(entries, lines), name) == match declared(lines, name) {
            Some(entry) => Some(entry),
            None => find(entries, name),
        },
    decreases lines.len(),
{
    if lines.len() > 0 {
        let init = lines.drop_last();
        let before = load_lines(entries, init);
        lemma_load_lines(entries, init);
        lemma_load_find(entries, init, name);
        lemma_line_entry_well_formed(lines.last());
        match line_entry(lines.last()) {
            Some(entry) => {
                lemma_put(before, entry);
            },
            None => {},
        }
    }
}

} // verus!
