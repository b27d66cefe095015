//! Request headers that a task brings along.

use vstd::prelude::*;

use crate::config::opt_view;
use crate::manifest::{pair_texts, string_texts};
use crate::options::{find_option, option_of};
use crate::text::{
    chars_of, cut_at, lowered, same_str, split_once, string_of, to_lower, trim, trimmed,
};

verus! {

/// A character that the name of a header may hold.
pub open spec fn name_char(c: char) -> bool {
    ||| '0' <= c && c <= '9'
    ||| 'a' <= c && c <= 'z'
    ||| 'A' <= c && c <= 'Z'
    ||| c == '!' || c == '#' || c == '$' || c == '%' || c == '&' || c == '\'' || c == '*' || c == '+'
    ||| c == '-' || c == '.' || c == '^' || c == '_' || c == '`' || c == '|' || c == '~'
}

/// A character that the value of a header may hold: no control character but the tab.
pub open spec fn value_char(c: char) -> bool {
    c == '\t' || (c >= ' ' && c != '\u{7f}')
}

/// A name that a task may set. Ranges and the host are the engine's own.
pub open spec fn settable(name: Seq<char>) -> bool {
    &&& name.len() > 0
    &&& forall|i: int| 0 <= i < name.len() ==> name_char(#[trigger] name[i])
    &&& lowered(name) != "range"@
    &&& lowered(name) != "host"@
}

/// The header of a line `name: value`; none if the line is malformed or sets what it
/// must not.
pub open spec fn header_of(line: Seq<char>) -> Option<(Seq<char>, Seq<char>)> {
    match cut_at(line, ':') {
        Some((n, v)) => {
            let (name, value) = (trimmed(n), trimmed(v));
            if settable(name) && (forall|i: int| 0 <= i < value.len() ==> value_char(#[trigger] value[i])) {
                Some((name, value))
            } else {
                None
            }
        },
        None => None,
    }
}

/// The headers of some lines, in order.
pub open spec fn headers_of(lines: Seq<Seq<char>>) -> Seq<(Seq<char>, Seq<char>)>
    decreases lines.len(),
{
    if lines.len() == 0 {
        Seq::empty()
    } else {
        let rest = headers_of(lines.drop_last());
        match header_of(lines.last()) {
            Some(h) => rest.push(h),
            None => rest,
        }
    }
}

fn is_name_char(c: char) -> (r: bool)
    ensures
        r == name_char(c),
{
    ('0' <= c && c <= '9') || ('a' <= c && c <= 'z') || ('A' <= c && c <= 'Z') || c == '!' || c == '#'
        || c == '$' || c == '%' || c == '&' || c == '\'' || c == '*' || c == '+' || c == '-' || c == '.'
        || c == '^' || c == '_' || c == '`' || c == '|' || c == '~'
}

fn is_settable(name: &Vec<char>) -> (r: bool)
    ensures
        r == settable(name@),
{
    let mut i: usize = 0;
    while i < name.len()
        invariant
            i <= name@.len(),
            forall|j: int| 0 <= j < i ==> name_char(#[trigger] name@[j]),
        decreases name@.len() - i,
    {
        if !is_name_char(name[i]) {
            assert(!name_char(name@[i as int]));
            return false;
        }
        i = i + 1;
    }
    let low = string_of(&to_lower(name));
    name.len() > 0 && !same_str(low.as_str(), "range") && !same_str(low.as_str(), "host")
}

fn is_value(value: &Vec<char>) -> (r: bool)
    ensures
        r == (forall|i: int| 0 <= i < value@.len() ==> value_char(#[trigger] value@[i])),
{
    let mut i: usize = 0;
    while i < value.len()
        invariant
            i <= value@.len(),
            forall|j: int| 0 <= j < i ==> value_char(#[trigger] value@[j]),
        decreases value@.len() - i,
    {
        let c = value[i];
        if !(c == '\t' || (c >= ' ' && c != '\u{7f}')) {
            assert(!value_char(value@[i as int]));
            return false;
        }
        i = i + 1;
    }
    true
}

fn read_header(line: &str) -> (r: Option<(String, String)>)
    ensures
        match r {
            Some(h) => header_of(line@) == Some((h.0@, h.1@)),
            None => header_of(line@) is None,
        },
{
    match split_once(&chars_of(line), ':') {
        Some(p) => {
            let name = trim(&p.0);
            let value = trim(&p.1);
            if is_settable(&name) && is_value(&value) {
                Some((string_of(&name), string_of(&value)))
            } else {
                None
            }
        },
        None => None,
    }
}

/// Reads the headers of some lines. Malformed lines are passed over, and so are those
/// that would change the range or the host that the engine asks for.
pub fn parse_header_lines(lines: &Vec<String>) -> (r: Vec<(String, String)>)
    ensures
        pair_texts(r@) == headers_of(string_texts(lines@)),
{
    let ghost all = string_texts(lines@);
    let mut out: Vec<(String, String)> = Vec::new();
    let mut i: usize = 0;
    assert(all.take(0) =~= Seq::<Seq<char>>::empty());
    assert(pair_texts(out@) =~= Seq::<(Seq<char>, Seq<char>)>::empty());
    while i < lines.len()
        invariant
            i <= lines@.len(),
            all == string_texts(lines@),
            pair_texts(out@) == headers_of(all.take(i as int)),
        decreases lines@.len() - i,
    {
        proof {
            assert(all.take(i + 1).drop_last() =~= all.take(i as int));
            assert(all.take(i + 1).last() == lines@[i as int]@);
        }
        let ghost before = pair_texts(out@);
        match read_header(lines[i].as_str()) {
            Some(h) => {
                let ghost seen = (h.0@, h.1@);
                out.push(h);
                assert(pair_texts(out@) =~= before.push(seen));
            },
            None => {},
        }
        i = i + 1;
    }
    assert(all.take(i as int) =~= all);
    out
}

/// The option that holds the headers of a task: its own, else the engine's.
pub fn header_option(task: &Vec<(String, String)>, global: &Vec<(String, String)>) -> (r: Option<String>)
    ensures
        opt_view(r) == option_of(pair_texts(task@), pair_texts(global@), "header"@),
{
    match find_option(task, global, "header") {
        Some(v) => Some(v.clone()),
        None => None,
    }
}

/// No line of a task changes the range or the host that the engine asks for.
pub proof fn law_headers_leave_ranges_alone(lines: Seq<Seq<char>>)
    ensures
        forall|i: int|
            0 <= i < headers_of(lines).len() ==> lowered((#[trigger] headers_of(lines)[i]).0)
                != "range"@ && lowered(headers_of(lines)[i].0) != "host"@,
    decreases lines.len(),
{
    if lines.len() > 0 {
        let rest = headers_of(lines.drop_last());
        law_headers_leave_ranges_alone(lines.drop_last());
        assert forall|i: int| 0 <= i < headers_of(lines).len() implies lowered(
            (#[trigger] headers_of(lines)[i]).0,
        ) != "range"@ && lowered(headers_of(lines)[i].0) != "host"@ by {
            if i < rest.len() {
                assert(headers_of(lines)[i] == rest[i]);
            } else {
                assert(headers_of(lines)[i] == header_of(lines.last())->0);
            }
        }
    }
}

/// A copy of some headers.
pub fn copy_headers(v: &Vec<(String, String)>) -> (r: Vec<(String, String)>)
    ensures
        pair_texts(r@) == pair_texts(v@),
{
    let mut out: Vec<(String, String)> = Vec::new();
    let mut i: usize = 0;
    while i < v.len()
        invariant
            i <= v@.len(),
            out@.len() == i,
            forall|k: int| 0 <= k < i ==> (#[trigger] out@[k]).0@ == v@[k].0@ && out@[k].1@ == v@[k].1@,
        decreases v@.len() - i,
    {
        out.push((v[i].0.clone(), v[i].1.clone()));
        i = i + 1;
    }
    assert(pair_texts(out@) =~= pair_texts(v@));
    out
}

/// A line of a name, a colon and a value sets that header, whatever white space stands
/// around the two; the range and the host cannot be set.
pub proof fn law_header_line_is_read(name: Seq<char>, value: Seq<char>)
    requires
        name.len() > 0,
        forall|i: int| 0 <= i < name.len() ==> name_char(#[trigger] name[i]),
        forall|i: int| 0 <= i < value.len() ==> value_char(#[trigger] value[i]),
        trimmed(value) == value,
    ensures
        lowered(name) != "range"@ && lowered(name) != "host"@ ==> header_of(
            name.push(':') + seq![' '] + value,
        ) == Some((name, value)),
        lowered(name) == "range"@ || lowered(name) == "host"@ ==> header_of(
            name.push(':') + seq![' '] + value,
        ) is None,
        header_of(name) is None,
{
    assert(!name.contains(':')) by {
        if name.contains(':') {
            let i = choose|i: int| 0 <= i < name.len() && name[i] == ':';
            assert(name_char(name[i]));
        }
    }
    let v = seq![' '] + value;
    assert(name.push(':') + seq![' '] + value =~= name.push(':') + v);
    crate::text::law_cut_at_the_first(name, v, ':');
    assert(name_char(name[0]) && name_char(name[name.len() - 1]));
    crate::text::law_trimmed_stays(name);
    let r = crate::text::law_trim_takes_only_white_space(value);
    assert(crate::text::white_space(' '));
    if value.len() > 0 {
        assert(value.subrange(r.0, r.1) == value);
        assert(value.subrange(r.0, r.1).len() == r.1 - r.0);
        assert(r.0 == 0 && r.1 == value.len());
        crate::text::law_trim_undoes_padding(seq![' '], value, Seq::empty());
        assert(seq![' '] + value + Seq::<char>::empty() =~= v);
    } else {
        let q = crate::text::law_trim_takes_only_white_space(v);
        assert(v =~= seq![' ']);
        if q.0 < q.1 {
            assert(v[q.0] == ' ');
        }
        assert(trimmed(v) =~= value);
    }
}

/// Lines that set nothing are passed over; the others set their headers in order.
pub proof fn law_headers_keep_their_order(a: Seq<Seq<char>>, b: Seq<Seq<char>>)
    ensures
        headers_of(a + b) == headers_of(a) + headers_of(b),
    decreases b.len(),
{
    if b.len() == 0 {
        assert(a + b =~= a);
        assert(headers_of(a) + headers_of(b) =~= headers_of(a));
    } else {
        law_headers_keep_their_order(a, b.drop_last());
        assert((a + b).drop_last() =~= a + b.drop_last());
        assert((a + b).last() == b.last());
        assert(headers_of(a + b) =~= headers_of(a) + headers_of(b));
    }
}

} // verus!
