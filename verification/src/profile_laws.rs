//! Laws of profiles: what is written into one is read from it.

use crate::profile::{
    all_digits, assigned, bracketed, decimal, digits, elements, elements_of, first_line, number,
    number_at, profile_in, right_of, seconds_at, strings, ungrouped, unquoted, value_of,
    value_or_fault, Profile, ProfileError, ProfileFault, ProfileView,
};
use crate::text::{
    a_piece_loses_its_edges, a_piece_loses_its_start, a_text_is_cut_at_the_first, trim_start,
    what_is_lost_at_the_start_is_edge, Edge,
};
use vstd::prelude::*;

verus! {

/// A line that begins with a key and an `=` assigns what stands behind the `=`,
/// whatever space is around the key.
pub proof fn a_line_assigns_what_is_right_of_its_key(
    indent: Seq<char>,
    key: Seq<char>,
    space: Seq<char>,
    right: Seq<char>,
)
    requires
        forall|i: int| 0 <= i < indent.len() ==> Edge::Space.covers(#[trigger] indent[i]),
        forall|i: int| 0 <= i < space.len() ==> Edge::Space.covers(#[trigger] space[i]),
        key.len() > 0 ==> !Edge::Space.covers(key[0]),
    ensures
        right_of(indent + key + space + seq!['='] + right, key) == Some(right),
{
    let line = indent + key + space + seq!['='] + right;
    let assignment = seq!['='] + right;
    if key.len() > 0 {
        let l = key + space + assignment;
        a_piece_loses_its_start(indent, l, Edge::Space);
        assert(line =~= indent + l);
        a_piece_loses_its_start(space, assignment, Edge::Space);
        assert(l.skip(key.len() as int) =~= space + assignment);
        assert(key.is_prefix_of(l));
    } else {
        a_piece_loses_its_start(indent + space, assignment, Edge::Space);
        assert(line =~= indent + space + assignment);
        a_piece_loses_its_start(Seq::empty(), assignment, Edge::Space);
        assert(Seq::<char>::empty() + assignment =~= assignment);
        assert(assignment.skip(0) =~= assignment);
    }
    assert(assignment.skip(1) =~= right);
}

/// Only such a line assigns anything to the key.
pub proof fn what_is_assigned_is_right_of_its_key(line: Seq<char>, key: Seq<char>) -> (spaces: (
    Seq<char>,
    Seq<char>,
))
    requires
        right_of(line, key) is Some,
    ensures
        line == spaces.0 + key + spaces.1 + seq!['='] + right_of(line, key)->Some_0,
        forall|i: int| 0 <= i < spaces.0.len() ==> Edge::Space.covers(#[trigger] spaces.0[i]),
        forall|i: int| 0 <= i < spaces.1.len() ==> Edge::Space.covers(#[trigger] spaces.1[i]),
        key.len() > 0 ==> !Edge::Space.covers(key[0]),
{
    let indent = what_is_lost_at_the_start_is_edge(line, Edge::Space);
    let l = trim_start(line, Edge::Space);
    let tail = l.skip(key.len() as int);
    let space = what_is_lost_at_the_start_is_edge(tail, Edge::Space);
    let rest = trim_start(tail, Edge::Space);
    assert(l =~= key + tail);
    assert(rest =~= seq!['='] + rest.skip(1));
    assert(line =~= indent + key + space + seq!['='] + rest.skip(1));
    (indent, space)
}

proof fn lemma_one_line(line: Seq<char>, key: Seq<char>)
    requires
        !line.contains('\n'),
    ensures
        value_of(line, key) == assigned(line, key),
        elements_of(line, key) == match right_of(line, key) {
            Some(right) => Some(elements(bracketed(right))),
            None => None,
        },
{
    reveal_with_fuel(value_of, 2);
    reveal_with_fuel(elements_of, 2);
    a_text_is_cut_at_the_first(line, '\n', Seq::empty());
    if line.len() == 0 {
        if right_of(line, key) is Some {
            let spaces = what_is_assigned_is_right_of_its_key(line, key);
            assert(line.len() > 0);
        }
    }
}

/// A key has a value on a line, and a list, if and only if the line begins with the
/// key and an `=`.
pub proof fn a_line_assigns_only_to_its_key(line: Seq<char>, key: Seq<char>)
    requires
        !line.contains('\n'),
    ensures
        value_of(line, key) is Some <==> right_of(line, key) is Some,
        elements_of(line, key) is Some <==> right_of(line, key) is Some,
{
    lemma_one_line(line, key);
}

/// The value of a key on a line is what stands behind the `=`: without the space
/// around it, without a comment, and without one layer of quotes, but otherwise as
/// it is written.
pub proof fn a_value_reads_back(
    indent: Seq<char>,
    key: Seq<char>,
    space: Seq<char>,
    lead: Seq<char>,
    open: bool,
    value: Seq<char>,
    close: bool,
    trail: Seq<char>,
    comment: Seq<char>,
)
    requires
        forall|i: int| 0 <= i < indent.len() ==> Edge::Space.covers(#[trigger] indent[i]),
        forall|i: int| 0 <= i < space.len() ==> Edge::Space.covers(#[trigger] space[i]),
        forall|i: int| 0 <= i < lead.len() ==> Edge::Space.covers(#[trigger] lead[i]),
        forall|i: int| 0 <= i < trail.len() ==> Edge::Space.covers(#[trigger] trail[i]),
        key.len() > 0 ==> !Edge::Space.covers(key[0]),
        comment.len() > 0 ==> comment[0] == '#',
        !value.contains('#'),
        !open && value.len() > 0 ==> value[0] != '"' && !Edge::Space.covers(value[0]),
        !close && value.len() > 0 ==> value.last() != '"' && !Edge::Space.covers(value.last()),
        ({
            let quoted = (if open {
                seq!['"']
            } else {
                Seq::empty()
            }) + value + (if close {
                seq!['"']
            } else {
                Seq::empty()
            });
            !(indent + key + space + seq!['='] + (lead + quoted + trail + comment)).contains('\n')
        }),
    ensures
        ({
            let quoted = (if open {
                seq!['"']
            } else {
                Seq::empty()
            }) + value + (if close {
                seq!['"']
            } else {
                Seq::empty()
            });
            value_of(
                indent + key + space + seq!['='] + (lead + quoted + trail + comment),
                key,
            ) == Some(value)
        }),
{
    let front = if open {
        seq!['"']
    } else {
        Seq::empty()
    };
    let back = if close {
        seq!['"']
    } else {
        Seq::empty()
    };
    let quoted = front + value + back;
    let right = lead + quoted + trail + comment;
    let line = indent + key + space + seq!['='] + right;
    a_line_assigns_what_is_right_of_its_key(indent, key, space, right);
    lemma_one_line(line, key);
    let body = lead + quoted + trail;
    assert(!body.contains('#')) by {
        if body.contains('#') {
            let i = body.index_of('#');
            if i < lead.len() {
                assert(Edge::Space.covers(lead[i]));
            } else if i >= lead.len() + quoted.len() {
                assert(Edge::Space.covers(trail[i - lead.len() - quoted.len()]));
            } else {
                let k = i - lead.len() - front.len();
                if 0 <= k < value.len() {
                    assert(value.contains(value[k]));
                }
            }
        }
    }
    if comment.len() > 0 {
        assert(right =~= body + seq!['#'] + comment.skip(1));
        a_text_is_cut_at_the_first(body, '#', comment.skip(1));
    } else {
        assert(right =~= body);
        a_text_is_cut_at_the_first(body, '#', Seq::empty());
    }
    if quoted.len() > 0 {
        assert(!Edge::Space.covers(quoted[0]));
        assert(!Edge::Space.covers(quoted.last()));
    }
    a_piece_loses_its_edges(lead, quoted, trail, Edge::Space);
    assert(unquoted(quoted) =~= value);
}

/// The first line that assigns something to a key is the one that counts, whether
/// lines end in a line feed or in a carriage return and a line feed.
pub proof fn the_first_line_counts(line: Seq<char>, crlf: bool, rest: Seq<char>, key: Seq<char>)
    requires
        !line.contains('\n'),
        crlf || line.len() == 0 || line.last() != '\r',
    ensures
        ({
            let text = line + (if crlf {
                seq!['\r', '\n']
            } else {
                seq!['\n']
            }) + rest;
            &&& value_of(text, key) == if value_of(line, key) is Some {
                value_of(line, key)
            } else {
                value_of(rest, key)
            }
            &&& elements_of(text, key) == if elements_of(line, key) is Some {
                elements_of(line, key)
            } else {
                elements_of(rest, key)
            }
        }),
{
    lemma_one_line(line, key);
    let text = line + (if crlf {
        seq!['\r', '\n']
    } else {
        seq!['\n']
    }) + rest;
    let whole = if crlf {
        line.push('\r')
    } else {
        line
    };
    assert(!whole.contains('\n')) by {
        if whole.contains('\n') {
            let i = whole.index_of('\n');
            if i < line.len() {
                assert(line.contains(line[i]));
            }
        }
    }
    assert(text =~= whole + seq!['\n'] + rest);
    a_text_is_cut_at_the_first(whole, '\n', rest);
    assert(first_line(text) =~= line);
}

/// A text without lines assigns nothing.
pub proof fn an_empty_text_assigns_nothing(key: Seq<char>)
    ensures
        value_of(Seq::empty(), key) is None,
        elements_of(Seq::empty(), key) is None,
{
}

/// The elements of a list are those of its parts, in order.
pub proof fn lists_join_at_a_comma(a: Seq<char>, b: Seq<char>)
    requires
        !a.contains(','),
    ensures
        elements(a + seq![','] + b) == elements(a) + elements(b),
{
    a_text_is_cut_at_the_first(a, ',', b);
}

/// A part of a list without commas is one element, without the space and the quotes
/// around it; or none, if nothing is left.
pub proof fn an_element_reads_back(
    lead: Seq<char>,
    front: Seq<char>,
    element: Seq<char>,
    back: Seq<char>,
    trail: Seq<char>,
)
    requires
        forall|i: int| 0 <= i < lead.len() ==> Edge::Space.covers(#[trigger] lead[i]),
        forall|i: int| 0 <= i < front.len() ==> (#[trigger] front[i]) == '"',
        forall|i: int| 0 <= i < back.len() ==> (#[trigger] back[i]) == '"',
        forall|i: int| 0 <= i < trail.len() ==> Edge::Space.covers(#[trigger] trail[i]),
        element.len() > 0 ==> {
            &&& element[0] != '"' && element.last() != '"'
            &&& front.len() == 0 ==> !Edge::Space.covers(element[0])
            &&& back.len() == 0 ==> !Edge::Space.covers(element.last())
        },
        !element.contains(','),
    ensures
        elements(lead + (front + element + back) + trail) == if element.len() > 0 {
            seq![element]
        } else {
            Seq::<Seq<char>>::empty()
        },
{
    let quoted = front + element + back;
    let part = lead + quoted + trail;
    assert(!part.contains(',')) by {
        if part.contains(',') {
            let i = part.index_of(',');
            let k = i - lead.len();
            if k < 0 {
                assert(Edge::Space.covers(lead[i]));
            } else if k >= quoted.len() {
                assert(Edge::Space.covers(trail[k - quoted.len()]));
            } else if front.len() <= k < front.len() + element.len() {
                assert(element.contains(element[k - front.len()]));
            }
        }
    }
    a_text_is_cut_at_the_first(part, ',', Seq::empty());
    if quoted.len() > 0 {
        assert(!Edge::Space.covers(quoted[0])) by {
            if front.len() > 0 {
                assert(quoted[0] == front[0]);
            } else if element.len() > 0 {
                assert(quoted[0] == element[0]);
            } else {
                assert(quoted[0] == back[0]);
            }
        }
        assert(!Edge::Space.covers(quoted.last())) by {
            if back.len() > 0 {
                assert(quoted.last() == back.last());
            } else if element.len() > 0 {
                assert(quoted.last() == element.last());
            } else {
                assert(quoted.last() == front.last());
            }
        }
    }
    a_piece_loses_its_edges(lead, quoted, trail, Edge::Space);
    a_piece_loses_its_edges(front, element, back, Edge::Quote);
}

/// The list of a key is what stands between the first brackets behind its `=`.
pub proof fn a_list_stands_between_brackets(
    indent: Seq<char>,
    key: Seq<char>,
    space: Seq<char>,
    lead: Seq<char>,
    inner: Seq<char>,
    trail: Seq<char>,
)
    requires
        forall|i: int| 0 <= i < indent.len() ==> Edge::Space.covers(#[trigger] indent[i]),
        forall|i: int| 0 <= i < space.len() ==> Edge::Space.covers(#[trigger] space[i]),
        key.len() > 0 ==> !Edge::Space.covers(key[0]),
        !lead.contains('['),
        !inner.contains(']'),
        !(indent + key + space + seq!['='] + (lead + seq!['['] + (inner + seq![']']
            + trail))).contains('\n'),
    ensures
        elements_of(
            indent + key + space + seq!['='] + (lead + seq!['['] + (inner + seq![']'] + trail)),
            key,
        ) == Some(elements(inner)),
{
    let opened = inner + seq![']'] + trail;
    let right = lead + seq!['['] + opened;
    a_line_assigns_what_is_right_of_its_key(indent, key, space, right);
    lemma_one_line(indent + key + space + seq!['='] + right, key);
    a_text_is_cut_at_the_first(lead, '[', opened);
    a_text_is_cut_at_the_first(inner, ']', trail);
}

/// A key that is assigned something without brackets has an empty list.
pub proof fn without_brackets_a_list_is_empty(line: Seq<char>, key: Seq<char>, a: Seq<char>, b: Seq<char>)
    requires
        !line.contains('\n'),
        !a.contains('['),
        !b.contains(']'),
        right_of(line, key) == Some(a) || right_of(line, key) == Some(a + seq!['['] + b),
    ensures
        elements_of(line, key) == Some(Seq::<Seq<char>>::empty()),
{
    lemma_one_line(line, key);
    a_text_is_cut_at_the_first(a, '[', b);
    a_text_is_cut_at_the_first(b, ']', Seq::empty());
    a_text_is_cut_at_the_first(Seq::empty(), ']', Seq::empty());
    let none = Seq::<char>::empty();
    an_element_reads_back(none, none, none, none, none);
    assert(none + (none + none + none) + none =~= none);
}

/// A list written out: its elements in quotes, with a comma and a space between.
pub open spec fn written(items: Seq<Seq<char>>) -> Seq<char>
    decreases items.len(),
{
    if items.len() == 0 {
        Seq::empty()
    } else if items.len() == 1 {
        seq!['"'] + items[0] + seq!['"']
    } else {
        seq!['"'] + items[0] + seq!['"'] + seq![',', ' '] + written(items.drop_first())
    }
}

/// Whether a text can be an element of a list that is written out.
pub open spec fn listable(item: Seq<char>) -> bool {
    &&& item.len() > 0
    &&& item[0] != '"' && item.last() != '"'
    &&& !item.contains(',') && !item.contains(']') && !item.contains('\n')
}

proof fn lemma_written(lead: Seq<char>, items: Seq<Seq<char>>)
    requires
        forall|i: int| 0 <= i < lead.len() ==> Edge::Space.covers(#[trigger] lead[i]),
        forall|i: int| 0 <= i < items.len() ==> listable(#[trigger] items[i]),
    ensures
        elements(lead + written(items)) == items,
        !written(items).contains(']'),
        !written(items).contains('\n'),
    decreases items.len(),
{
    let none = Seq::<char>::empty();
    if items.len() == 0 {
        an_element_reads_back(lead, none, none, none, none);
        assert(lead + (none + none + none) + none =~= lead + written(items));
        assert(elements(lead + written(items)) =~= items);
    } else {
        let item = items[0];
        let quoted = seq!['"'] + item + seq!['"'];
        assert(listable(item));
        an_element_reads_back(lead, seq!['"'], item, seq!['"'], none);
        let part = lead + quoted;
        assert(lead + quoted + none =~= part);
        assert forall|c: char| c == ']' || c == '\n' implies !quoted.contains(c) by {
            if quoted.contains(c) {
                let i = quoted.index_of(c);
                assert(item.contains(item[i - 1]));
            }
        }
        if items.len() == 1 {
            assert(seq![item] =~= items);
        } else {
            let rest = items.drop_first();
            lemma_written(seq![' '], rest);
            assert(lead + written(items) =~= part + seq![','] + (seq![' '] + written(rest)));
            assert(!part.contains(',')) by {
                if part.contains(',') {
                    let i = part.index_of(',');
                    let k = i - lead.len();
                    if k < 0 {
                        assert(Edge::Space.covers(lead[i]));
                    } else if 1 <= k <= item.len() {
                        assert(item.contains(item[k - 1]));
                    }
                }
            }
            lists_join_at_a_comma(part, seq![' '] + written(rest));
            assert(seq![item] + rest =~= items);
            assert forall|c: char| c == ']' || c == '\n' implies !written(items).contains(c) by {
                if written(items).contains(c) {
                    let i = written(items).index_of(c);
                    let k = i - quoted.len();
                    if k < 0 {
                        assert(quoted.contains(quoted[i]));
                    } else if k >= 2 {
                        assert(written(rest).contains(written(rest)[k - 2]));
                    }
                }
            }
        }
    }
}

/// A list that is written out reads back, whatever its length: the same elements, in
/// the same order.
pub proof fn a_list_reads_back(key: Seq<char>, items: Seq<Seq<char>>)
    requires
        key.len() > 0 ==> !Edge::Space.covers(key[0]),
        !key.contains('\n'),
        forall|i: int| 0 <= i < items.len() ==> listable(#[trigger] items[i]),
    ensures
        elements_of(
            key + seq![' ', '=', ' ', '['] + written(items) + seq![']'],
            key,
        ) == Some(items),
{
    let none = Seq::<char>::empty();
    lemma_written(none, items);
    assert(none + written(items) =~= written(items));
    let line = key + seq![' ', '=', ' ', '['] + written(items) + seq![']'];
    assert(line =~= none + key + seq![' '] + seq!['='] + (seq![' '] + seq!['['] + (written(items)
        + seq![']'] + none)));
    assert(!line.contains('\n')) by {
        if line.contains('\n') {
            let i = line.index_of('\n');
            let k = i - key.len() - 4;
            if i < key.len() {
                assert(key.contains(key[i]));
            } else if 0 <= k < written(items).len() {
                assert(written(items).contains(written(items)[k]));
            }
        }
    }
    a_list_stands_between_brackets(none, key, seq![' '], seq![' '], written(items), none);
}

/// How a number is read, character by character: an underscore changes nothing, a
/// digit makes ten times the number and the digit, as long as it fits, and anything
/// else makes it none. Before the first digit only one plus sign may stand.
pub proof fn a_number_is_read_by_its_characters(s: Seq<char>, c: char)
    ensures
        number(Seq::empty()) is None,
        c == '_' ==> number(s.push(c)) == number(s),
        '0' <= c <= '9' ==> ({
            let blank = {
                &&& forall|i: int| 0 <= i < s.len() ==> (#[trigger] s[i]) == '_' || s[i] == '+'
                &&& forall|i: int, j: int|
                    0 <= i < j < s.len() ==> (#[trigger] s[i]) == '_' || (#[trigger] s[j]) == '_'
            };
            let digit = c as int - '0' as int;
            match number(s) {
                Some(n) => match number(s.push(c)) {
                    Some(m) => m == n * 10 + digit,
                    None => n * 10 + digit > u128::MAX,
                },
                None => if blank {
                    number(s.push(c)) == Some(digit as u128)
                } else {
                    number(s.push(c)) is None
                },
            }
        }),
        c != '_' && !('0' <= c <= '9') ==> number(s.push(c)) is None,
{
    lemma_blank(s);
    let plain = ungrouped(s);
    let t = s.push(c);
    assert(t.drop_last() =~= s);
    if c != '_' {
        let signed = plain.len() > 0 && plain[0] == '+';
        let digits = if signed {
            plain.skip(1)
        } else {
            plain
        };
        let more = digits.push(c);
        assert(more.drop_last() =~= digits);
        assert(more[digits.len() as int] == c);
        assert(forall|i: int| 0 <= i < digits.len() ==> more[i] == #[trigger] digits[i]);
        if signed {
            assert(plain.push(c).skip(1) =~= more);
        } else if plain.len() > 0 {
            assert(plain.push(c)[0] == plain[0]);
        }
        if c == '+' && plain.len() == 0 {
            assert(plain.push(c).skip(1).len() == 0);
        } else {
            assert(all_digits(more) <==> all_digits(digits) && '0' <= c <= '9') by {
                if all_digits(more) {
                    assert forall|i: int| 0 <= i < digits.len() implies '0' <= (
                    #[trigger] digits[i]) <= '9' by {
                        assert(more[i] == digits[i]);
                    }
                }
            }
            assert(number(t) == if all_digits(more) && decimal(more) <= u128::MAX {
                Some(decimal(more) as u128)
            } else {
                None
            });
        }
        if '0' <= c <= '9' && digits.len() == 0 {
            assert(decimal(digits) == 0);
        }
        if '0' <= c <= '9' && digits.len() > 0 && plain.len() <= 1 {
            assert(plain[0] != '+');
        }
    }
}

/// Whether nothing but underscores and at most one plus sign is in a text.
spec fn blank(s: Seq<char>) -> bool {
    &&& forall|i: int| 0 <= i < s.len() ==> (#[trigger] s[i]) == '_' || s[i] == '+'
    &&& forall|i: int, j: int|
        0 <= i < j < s.len() ==> (#[trigger] s[i]) == '_' || (#[trigger] s[j]) == '_'
}

proof fn lemma_blank(s: Seq<char>)
    ensures
        ungrouped(s).len() == 0 <==> forall|i: int| 0 <= i < s.len() ==> (#[trigger] s[i]) == '_',
        blank(s) <==> ungrouped(s).len() == 0 || (ungrouped(s).len() == 1 && ungrouped(s)[0]
            == '+'),
    decreases s.len(),
{
    if s.len() > 0 {
        let r = s.drop_last();
        let n = r.len() as int;
        lemma_blank(r);
        assert(forall|i: int| 0 <= i < n ==> #[trigger] r[i] == s[i]);
        if ungrouped(s).len() == 0 {
            assert forall|i: int| 0 <= i < s.len() implies (#[trigger] s[i]) == '_' by {
                if i < n {
                    assert(r[i] == '_');
                }
            }
        } else if s.last() == '_' {
            let k = choose|k: int| 0 <= k < n && r[k] != '_';
            assert(s[k] == r[k]);
        }
        if blank(s) {
            assert(blank(r));
            assert(s[n] == '_' || s[n] == '+');
            if s[n] == '+' {
                assert forall|i: int| 0 <= i < n implies (#[trigger] r[i]) == '_' by {
                    assert(s[i] == '_' || s[n] == '_');
                }
                assert(ungrouped(s)[0] == '+');
            }
        }
        if ungrouped(s).len() == 0 || (ungrouped(s).len() == 1 && ungrouped(s)[0] == '+') {
            if s.last() != '_' {
                assert(ungrouped(s)[ungrouped(r).len() as int] == s.last());
            }
            assert(blank(r));
            assert forall|i: int| 0 <= i < s.len() implies (#[trigger] s[i]) == '_' || s[i]
                == '+' by {
                if i < n {
                    assert(r[i] == s[i]);
                }
            }
            assert forall|i: int, j: int| 0 <= i < j < s.len() implies (#[trigger] s[i]) == '_' || (
            #[trigger] s[j]) == '_' by {
                assert(r[i] == s[i]);
                if j < n {
                    assert(r[j] == s[j]);
                }
            }
        }
    }
}

/// A number is written with its digits in order, without leading zeros.
pub proof fn a_number_is_written_in_digits(n: nat, d: nat)
    requires
        d < 10,
    ensures
        digits(d) == seq![('0' as nat + d) as char],
        n > 0 ==> digits(n * 10 + d) == digits(n).push(('0' as nat + d) as char),
{
}

/// The number of a key is the one that its value is read as; without a value, or
/// with one that is no number, or too large a number of seconds, it has none.
pub proof fn a_key_has_the_number_it_is_assigned(text: Seq<char>, key: Seq<char>, n: u128)
    ensures
        number_at(text, key) == Ok::<u128, ProfileFault>(n) <==> (value_of(text, key) matches Some(
            raw,
        ) && number(raw) == Some(n)),
        number_at(text, key) == Err::<u128, ProfileFault>(ProfileFault::Missing(key)) <==> value_of(
            text,
            key,
        ) is None,
        value_of(text, key) matches Some(raw) ==> (number_at(text, key) == Err::<
            u128,
            ProfileFault,
        >(ProfileFault::NotAnInteger(key, raw)) <==> number(raw) is None),
        n <= u64::MAX ==> (seconds_at(text, key) == Ok::<u64, ProfileFault>(n as u64)
            <==> number_at(text, key) == Ok::<u128, ProfileFault>(n)),
        n > u64::MAX && number_at(text, key) == Ok::<u128, ProfileFault>(n) ==> seconds_at(
            text,
            key,
        ) == Err::<u64, ProfileFault>(ProfileFault::OutOfRange(key)),
        number_at(text, key) matches Err(fault) ==> seconds_at(text, key) == Err::<
            u64,
            ProfileFault,
        >(fault),
{
}

/// A profile is accepted if and only if every key has its value, and the budgets and
/// windows are sound: each budget covers each price, the burst budget is at most the
/// daily one, and the burst window is shorter than the daily one. It holds what its
/// keys are assigned, each its own.
pub proof fn a_profile_holds_what_its_keys_are_assigned(text: Seq<char>, p: ProfileView)
    ensures
        profile_in(text) == Ok::<ProfileView, ProfileFault>(p) <==> {
            &&& value_of(text, "index_principal"@) == Some(p.index)
            &&& value_of(text, "cycle_floor"@) matches Some(raw) && number(raw) == Some(
                p.cycle_floor,
            )
            &&& value_of(text, "ingest_price"@) matches Some(raw) && number(raw) == Some(
                p.ingest_price,
            )
            &&& value_of(text, "sign_price"@) matches Some(raw) && number(raw) == Some(p.sign_price)
            &&& value_of(text, "root_price"@) matches Some(raw) && number(raw) == Some(p.root_price)
            &&& value_of(text, "burst_budget_cycles"@) matches Some(raw) && number(raw) == Some(
                p.burst_budget,
            )
            &&& value_of(text, "burst_window_secs"@) matches Some(raw) && number(raw) == Some(
                p.burst_window_secs as u128,
            )
            &&& value_of(text, "daily_budget_cycles"@) matches Some(raw) && number(raw) == Some(
                p.daily_budget,
            )
            &&& value_of(text, "daily_window_secs"@) matches Some(raw) && number(raw) == Some(
                p.daily_window_secs as u128,
            )
            &&& elements_of(text, "allowlist"@) == Some(p.allowlist)
            &&& elements_of(text, "games"@) == Some(p.games)
            &&& p.ingest_price <= p.burst_budget && p.ingest_price <= p.daily_budget
            &&& p.sign_price <= p.burst_budget && p.sign_price <= p.daily_budget
            &&& p.root_price <= p.burst_budget && p.root_price <= p.daily_budget
            &&& p.burst_budget <= p.daily_budget
            &&& p.burst_window_secs < p.daily_window_secs
        },
{
}

/// A profile is sound if and only if each budget covers each price, the burst budget
/// is at most the daily one, and the burst window is shorter than the daily one.
/// What is said of one that is not is true of it, in this order.
pub proof fn only_an_unsound_profile_is_refused(p: ProfileView)
    ensures
        ({
            let covered = {
                &&& p.ingest_price <= p.burst_budget && p.ingest_price <= p.daily_budget
                &&& p.sign_price <= p.burst_budget && p.sign_price <= p.daily_budget
                &&& p.root_price <= p.burst_budget && p.root_price <= p.daily_budget
            };
            let ordered = p.burst_budget <= p.daily_budget;
            let shorter = p.burst_window_secs < p.daily_window_secs;
            &&& p.unsound() is None <==> covered && ordered && shorter
            &&& !covered ==> p.unsound() == Some(
                ProfileFault::BudgetsTooSmall {
                    burst: p.burst_budget,
                    daily: p.daily_budget,
                    dearest: p.dearest(),
                },
            )
            &&& covered && !ordered ==> p.unsound() == Some(
                ProfileFault::BurstAboveDaily { burst: p.burst_budget, daily: p.daily_budget },
            )
            &&& covered && ordered && !shorter ==> p.unsound() == Some(
                ProfileFault::WindowsOutOfOrder,
            )
            &&& p.dearest() >= p.ingest_price && p.dearest() >= p.sign_price && p.dearest()
                >= p.root_price
            &&& p.dearest() == p.ingest_price || p.dearest() == p.sign_price || p.dearest()
                == p.root_price
        }),
{
}

/// The fault of a profile is the first there is, in the order of the keys; and where
/// all can be read, what is unsound of it.
pub proof fn a_profile_has_its_first_fault(text: Seq<char>)
    ensures
        ({
            let r = profile_in(text);
            if value_of(text, "index_principal"@) is None {
                r == Err::<ProfileView, ProfileFault>(ProfileFault::Missing("index_principal"@))
            } else if number_at(text, "cycle_floor"@) is Err {
                r is Err && r->Err_0 == number_at(text, "cycle_floor"@)->Err_0
            } else if number_at(text, "ingest_price"@) is Err {
                r is Err && r->Err_0 == number_at(text, "ingest_price"@)->Err_0
            } else if number_at(text, "sign_price"@) is Err {
                r is Err && r->Err_0 == number_at(text, "sign_price"@)->Err_0
            } else if number_at(text, "root_price"@) is Err {
                r is Err && r->Err_0 == number_at(text, "root_price"@)->Err_0
            } else if number_at(text, "burst_budget_cycles"@) is Err {
                r is Err && r->Err_0 == number_at(text, "burst_budget_cycles"@)->Err_0
            } else if seconds_at(text, "burst_window_secs"@) is Err {
                r is Err && r->Err_0 == seconds_at(text, "burst_window_secs"@)->Err_0
            } else if number_at(text, "daily_budget_cycles"@) is Err {
                r is Err && r->Err_0 == number_at(text, "daily_budget_cycles"@)->Err_0
            } else if seconds_at(text, "daily_window_secs"@) is Err {
                r is Err && r->Err_0 == seconds_at(text, "daily_window_secs"@)->Err_0
            } else if elements_of(text, "allowlist"@) is None {
                r == Err::<ProfileView, ProfileFault>(ProfileFault::Missing("allowlist"@))
            } else if elements_of(text, "games"@) is None {
                r == Err::<ProfileView, ProfileFault>(ProfileFault::Missing("games"@))
            } else {
                r is Err ==> {
                    ||| r->Err_0 is BudgetsTooSmall
                    ||| r->Err_0 is BurstAboveDaily
                    ||| r->Err_0 is WindowsOutOfOrder
                }
            }
        }),
{
}

/// A profile, and what is wrong with one, are known by all that they hold.
pub proof fn nothing_of_a_profile_is_lost(
    p: Profile,
    key: &'static str,
    raw: String,
    burst: u128,
    daily: u128,
    dearest: u128,
)
    ensures
        p@.index == p.index@,
        p@.cycle_floor == p.cycle_floor,
        p@.ingest_price == p.ingest_price,
        p@.sign_price == p.sign_price,
        p@.root_price == p.root_price,
        p@.burst_budget == p.burst_budget,
        p@.burst_window_secs == p.burst_window_secs,
        p@.daily_budget == p.daily_budget,
        p@.daily_window_secs == p.daily_window_secs,
        p@.allowlist == strings(p.allowlist@),
        p@.games == strings(p.games@),
        ProfileError::Missing(key)@ == ProfileFault::Missing(key@),
        ProfileError::NotAnInteger(key, raw)@ == ProfileFault::NotAnInteger(key@, raw@),
        ProfileError::OutOfRange(key)@ == ProfileFault::OutOfRange(key@),
        (ProfileError::BudgetsTooSmall { burst, daily, dearest })@
            == (ProfileFault::BudgetsTooSmall { burst, daily, dearest }),
        (ProfileError::BurstAboveDaily { burst, daily })@ == (ProfileFault::BurstAboveDaily {
            burst,
            daily,
        }),
        ProfileError::WindowsOutOfOrder@ == ProfileFault::WindowsOutOfOrder,
{
}

/// The texts of a list are those of its strings, each in its place; and a result is
/// known by its value or by its error.
pub proof fn a_list_of_strings_is_their_texts(list: Seq<String>, r: Result<u128, ProfileError>)
    ensures
        strings(list).len() == list.len(),
        forall|i: int| 0 <= i < list.len() ==> (#[trigger] strings(list)[i]) == list[i]@,
        r matches Ok(n) ==> value_or_fault(r) == Ok::<u128, ProfileFault>(n),
        r matches Err(e) ==> value_or_fault(r) == Err::<u128, ProfileFault>(e@),
{
}

/// What is said of a fault names the key, the value and the amounts that it is about.
pub proof fn a_message_says_what_is_wrong(
    key: Seq<char>,
    raw: Seq<char>,
    burst: u128,
    daily: u128,
    dearest: u128,
)
    ensures
        ProfileFault::Missing(key).message() == "missing `"@ + key + "` in config"@,
        ProfileFault::NotAnInteger(key, raw).message() == "`"@ + key + "` = `"@ + raw
            + "` is not an integer"@,
        ProfileFault::OutOfRange(key).message() == "`"@ + key + "` out of u64 range"@,
        (ProfileFault::BudgetsTooSmall { burst, daily, dearest }).message()
            == "per-key budgets (burst "@ + digits(burst as nat) + ", daily "@ + digits(
            daily as nat,
        ) + ") must cover the dearest single call ("@ + digits(dearest as nat)
            + "), else that call can never be forwarded"@,
        (ProfileFault::BurstAboveDaily { burst, daily }).message() == "burst_budget ("@ + digits(
            burst as nat,
        ) + ") above daily_budget ("@ + digits(daily as nat)
            + ") makes the burst window dead weight"@,
        ProfileFault::WindowsOutOfOrder.message()
            == "burst window must be shorter than the daily window"@,
{
}

} // verus!
