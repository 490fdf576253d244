//! The durable on-disk index format and the denylist file format.
//!
//! One canonical, human-diffable serialization: each record is a block of
//! a header line and three quoted `key = "value"` lines, closed by a blank
//! line. Loading parses that exact shape and reports anything else as
//! malformed. Newlines and backslashes in field values are escaped, so
//! serializing and parsing round-trip exactly for every record.

use vstd::prelude::*;

use crate::database::Crate;
use crate::text::{
    append_chars, append_str, chars_eq, chars_of, find_char, first_idx, lemma_first_idx_is,
    slice_chars, starts_with_chars, string_of,
};

verus! {

/// The views of a record sequence, field by field.
pub open spec fn views_of(s: Seq<Crate>) -> Seq<(Seq<char>, Seq<char>, Seq<char>)> {
    s.map_values(|c: Crate| c@)
}

/// `s` holds no newline character.
pub open spec fn no_newline(s: Seq<char>) -> bool {
    forall|i: int| 0 <= i < s.len() ==> s[i] != '\n'
}

/// How one character is written inside a quoted field value: backslash
/// and newline are escaped, so a field never breaks the line structure
/// and every field round-trips; every other character stands as itself.
pub open spec fn escape_char(c: char) -> Seq<char> {
    if c == '\\' {
        seq!['\\', '\\']
    } else if c == '\n' {
        seq!['\\', 'n']
    } else {
        seq![c]
    }
}

/// A field value as it is written inside its quoted line.
pub open spec fn escape_spec(s: Seq<char>) -> Seq<char>
    decreases s.len(),
{
    if s.len() == 0 {
        Seq::empty()
    } else {
        escape_char(s[0]) + escape_spec(s.drop_first())
    }
}

/// The character an escape sequence stands for.
pub open spec fn unescape_char(c: char) -> char {
    if c == 'n' {
        '\n'
    } else {
        c
    }
}

/// A quoted line's value read back: each escape sequence replaced by the
/// character it stands for. A lone backslash at the very end stands for
/// nothing.
pub open spec fn unescape_spec(s: Seq<char>) -> Seq<char>
    decreases s.len(),
{
    if s.len() == 0 {
        Seq::empty()
    } else if s[0] == '\\' {
        if s.len() == 1 {
            Seq::empty()
        } else {
            seq![unescape_char(s[1])] + unescape_spec(s.subrange(2, s.len() as int))
        }
    } else {
        seq![s[0]] + unescape_spec(s.subrange(1, s.len() as int))
    }
}

/// An escaped value holds no newline, whatever the original held.
proof fn lemma_escape_no_newline(s: Seq<char>)
    ensures
        no_newline(escape_spec(s)),
    decreases s.len(),
{
    if s.len() > 0 {
        lemma_escape_no_newline(s.drop_first());
        let head = escape_char(s[0]);
        let tail = escape_spec(s.drop_first());
        assert forall|i: int| 0 <= i < escape_spec(s).len() implies escape_spec(s)[i] != '\n' by {
            if i < head.len() {
                assert(escape_spec(s)[i] == head[i]);
            } else {
                assert(escape_spec(s)[i] == tail[i - head.len()]);
            }
        }
    }
}

/// Escaping and reading back are inverse: every value round-trips.
proof fn lemma_unescape_escape(s: Seq<char>)
    ensures
        unescape_spec(escape_spec(s)) == s,
    decreases s.len(),
{
    if s.len() == 0 {
        assert(unescape_spec(escape_spec(s)) =~= s);
    } else {
        lemma_unescape_escape(s.drop_first());
        let e = escape_spec(s);
        let rest = escape_spec(s.drop_first());
        if s[0] == '\\' || s[0] == '\n' {
            assert(e[0] == '\\');
            assert(e.len() >= 2);
            assert(e.subrange(2, e.len() as int) =~= rest);
            assert(unescape_spec(e) =~= seq![s[0]] + s.drop_first());
        } else {
            assert(e[0] == s[0]);
            assert(e.subrange(1, e.len() as int) =~= rest);
            assert(unescape_spec(e) =~= seq![s[0]] + s.drop_first());
        }
        assert(seq![s[0]] + s.drop_first() =~= s);
    }
}

/// The escaped form of `v`.
#[verifier::loop_isolation(false)]
fn escape_chars(v: &Vec<char>) -> (r: Vec<char>)
    ensures
        r@ == escape_spec(v@),
{
    let n = v.len();
    let mut r: Vec<char> = Vec::new();
    let mut i: usize = 0;
    assert(v@.subrange(0, n as int) =~= v@);
    assert(r@ + escape_spec(v@) =~= escape_spec(v@));
    while i < n
        invariant
            i <= n,
            escape_spec(v@) == r@ + escape_spec(v@.subrange(i as int, n as int)),
        decreases n - i,
    {
        let ghost tail = v@.subrange(i as int, n as int);
        let ghost r0 = r@;
        assert(tail[0] == v@[i as int]);
        assert(tail.drop_first() =~= v@.subrange(i + 1 as int, n as int));
        let c = v[i];
        if c == '\\' {
            r.push('\\');
            r.push('\\');
        } else if c == '\n' {
            r.push('\\');
            r.push('n');
        } else {
            r.push(c);
        }
        proof {
            assert(r@ =~= r0 + escape_char(v@[i as int]));
            assert(r0 + (escape_char(tail[0]) + escape_spec(tail.drop_first())) =~= (r0
                + escape_char(tail[0])) + escape_spec(tail.drop_first()));
        }
        i += 1;
    }
    assert(escape_spec(v@.subrange(i as int, n as int)) =~= Seq::<char>::empty());
    assert(r@ =~= escape_spec(v@));
    r
}

/// The value an escaped form stands for.
#[verifier::loop_isolation(false)]
fn unescape_chars(v: &Vec<char>) -> (r: Vec<char>)
    ensures
        r@ == unescape_spec(v@),
{
    let n = v.len();
    let mut r: Vec<char> = Vec::new();
    let mut i: usize = 0;
    assert(v@.subrange(0, n as int) =~= v@);
    assert(r@ + unescape_spec(v@) =~= unescape_spec(v@));
    while i < n
        invariant
            i <= n,
            unescape_spec(v@) == r@ + unescape_spec(v@.subrange(i as int, n as int)),
        decreases n - i,
    {
        let ghost tail = v@.subrange(i as int, n as int);
        let ghost r0 = r@;
        assert(tail[0] == v@[i as int]);
        if v[i] == '\\' {
            if i + 1 < n {
                assert(tail[1] == v@[i + 1]);
                assert(tail.subrange(2, tail.len() as int) =~= v@.subrange(
                    i + 2 as int,
                    n as int,
                ));
                let c = v[i + 1];
                if c == 'n' {
                    r.push('\n');
                } else {
                    r.push(c);
                }
                proof {
                    assert(r@ =~= r0 + seq![unescape_char(v@[i + 1])]);
                    assert(r0 + (seq![unescape_char(tail[1])] + unescape_spec(
                        tail.subrange(2, tail.len() as int),
                    )) =~= r@ + unescape_spec(v@.subrange(i + 2 as int, n as int)));
                }
                i += 2;
            } else {
                assert(tail.len() == 1);
                assert(r0 + Seq::<char>::empty() =~= r0);
                i += 1;
            }
        } else {
            assert(tail.subrange(1, tail.len() as int) =~= v@.subrange(i + 1 as int, n as int));
            r.push(v[i]);
            proof {
                assert(r@ =~= r0 + seq![v@[i as int]]);
                assert(r0 + (seq![tail[0]] + unescape_spec(tail.subrange(1, tail.len() as int)))
                    =~= r@ + unescape_spec(v@.subrange(i + 1 as int, n as int)));
            }
            i += 1;
        }
    }
    assert(unescape_spec(v@.subrange(i as int, n as int)) =~= Seq::<char>::empty());
    assert(r@ =~= unescape_spec(v@));
    r
}

/// A `key = "value"` line: the fixed prefix, the field, a closing quote.
pub open spec fn field_line(prefix: Seq<char>, value: Seq<char>) -> Seq<char> {
    prefix + value + seq!['"']
}

/// The lines of one serialized record, in order, with the blank line that
/// closes the block.
pub open spec fn record_lines(v: (Seq<char>, Seq<char>, Seq<char>)) -> Seq<Seq<char>> {
    seq![
        "[[crates]]"@,
        field_line("name = \""@, escape_spec(v.0)),
        field_line("version = \""@, escape_spec(v.1)),
        field_line("description = \""@, escape_spec(v.2)),
        Seq::<char>::empty(),
    ]
}

/// The text of one serialized record.
pub open spec fn record_text(v: (Seq<char>, Seq<char>, Seq<char>)) -> Seq<char> {
    "[[crates]]"@ + seq!['\n'] + field_line("name = \""@, escape_spec(v.0)) + seq!['\n']
        + field_line("version = \""@, escape_spec(v.1)) + seq!['\n'] + field_line(
        "description = \""@,
        escape_spec(v.2),
    ) + seq!['\n'] + seq!['\n']
}

/// The full text of a serialized index: the records' blocks in order.
pub open spec fn index_text(vs: Seq<(Seq<char>, Seq<char>, Seq<char>)>) -> Seq<char>
    decreases vs.len(),
{
    if vs.len() == 0 {
        Seq::empty()
    } else {
        record_text(vs[0]) + index_text(vs.drop_first())
    }
}

/// `t` split at newlines: every newline ends a line, and a nonempty tail
/// without a newline is a final line of its own.
pub open spec fn lines_spec(t: Seq<char>) -> Seq<Seq<char>>
    decreases t.len(),
{
    if t.len() == 0 {
        Seq::empty()
    } else {
        let i = first_idx(t, '\n') as int;
        if i >= t.len() {
            seq![t]
        } else {
            seq![t.subrange(0, i)] + lines_spec(t.subrange(i + 1, t.len() as int))
        }
    }
}

/// Splitting off one newline-free line: the line, the newline, and the
/// rest split as the line followed by the split of the rest.
pub proof fn lemma_lines_unfold(line: Seq<char>, rest: Seq<char>)
    requires
        no_newline(line),
    ensures
        lines_spec(line + seq!['\n'] + rest) == seq![line] + lines_spec(rest),
{
    let t = line + seq!['\n'] + rest;
    assert(t.len() > 0);
    assert forall|k: int| 0 <= k < line.len() implies t[k] != '\n' by {
        assert(t[k] == line[k]);
    }
    assert(t[line.len() as int] == '\n');
    lemma_first_idx_is(t, '\n', line.len() as int);
    assert(t.subrange(0, line.len() as int) =~= line);
    assert(t.subrange(line.len() as int + 1, t.len() as int) =~= rest);
}

/// The lines of `v`, in order, as `lines_spec` describes them.
#[verifier::loop_isolation(false)]
pub fn split_lines(v: &Vec<char>) -> (r: Vec<Vec<char>>)
    ensures
        r@.map_values(|l: Vec<char>| l@) == lines_spec(v@),
{
    let n = v.len();
    let mut r: Vec<Vec<char>> = Vec::new();
    let mut pos: usize = 0;
    assert(v@.subrange(0, n as int) =~= v@);
    assert(r@.map_values(|l: Vec<char>| l@) + lines_spec(v@) =~= lines_spec(v@));
    while pos < n
        invariant
            pos <= n,
            lines_spec(v@) == r@.map_values(|l: Vec<char>| l@) + lines_spec(
                v@.subrange(pos as int, n as int),
            ),
        decreases n - pos,
    {
        let ghost tail = v@.subrange(pos as int, n as int);
        match find_char(v, pos, '\n') {
            Some(i) => {
                proof {
                    assert forall|k: int| 0 <= k < i - pos implies tail[k] != '\n' by {
                        assert(tail[k] == v@[pos + k]);
                    }
                    assert(tail[i - pos] == '\n');
                    lemma_first_idx_is(tail, '\n', i - pos);
                    assert(tail.subrange(0, i - pos) =~= v@.subrange(pos as int, i as int));
                    assert(tail.subrange(i - pos + 1, tail.len() as int) =~= v@.subrange(
                        i + 1 as int,
                        n as int,
                    ));
                }
                let line = slice_chars(v, pos, i);
                r.push(line);
                proof {
                    assert(r@.map_values(|l: Vec<char>| l@) =~= views_with_last(r@, line));
                }
                pos = i + 1;
            },
            None => {
                proof {
                    assert forall|k: int| 0 <= k < tail.len() implies tail[k] != '\n' by {
                        assert(tail[k] == v@[pos + k]);
                    }
                    lemma_first_idx_is(tail, '\n', tail.len() as int);
                }
                let line = slice_chars(v, pos, n);
                r.push(line);
                proof {
                    assert(r@.map_values(|l: Vec<char>| l@) =~= views_with_last(r@, line));
                }
                pos = n;
            },
        }
        proof {
            assert(lines_spec(v@) =~= r@.map_values(|l: Vec<char>| l@) + lines_spec(
                v@.subrange(pos as int, n as int),
            ));
        }
    }
    assert(v@.subrange(pos as int, n as int) =~= Seq::<char>::empty());
    assert(lines_spec(v@) =~= r@.map_values(|l: Vec<char>| l@));
    r
}

/// The mapped views of `s`, written with its last element split off.
spec fn views_with_last(s: Seq<Vec<char>>, last: Vec<char>) -> Seq<Seq<char>>
    recommends
        s.len() > 0,
{
    s.drop_last().map_values(|l: Vec<char>| l@).push(last@)
}

/// Serializes the records into the canonical on-disk index text.
pub fn serialize_index(records: &Vec<Crate>) -> (s: String)
    ensures
        s@ == index_text(views_of(records@)),
{
    let mut out: Vec<char> = Vec::new();
    let mut i: usize = 0;
    assert(views_of(records@).subrange(0, records@.len() as int) =~= views_of(records@));
    assert(out@ + index_text(views_of(records@)) =~= index_text(views_of(records@)));
    while i < records.len()
        invariant
            i <= records@.len(),
            out@ + index_text(views_of(records@).subrange(i as int, records@.len() as int))
                == index_text(views_of(records@)),
        decreases records@.len() - i,
    {
        let c = &records[i];
        let ghost out0 = out@;
        append_str(&mut out, "[[crates]]");
        out.push('\n');
        append_str(&mut out, "name = \"");
        let name_chars = escape_chars(&chars_of(c.name.as_str()));
        append_chars(&mut out, &name_chars);
        out.push('"');
        out.push('\n');
        append_str(&mut out, "version = \"");
        let version_chars = escape_chars(&chars_of(c.version.as_str()));
        append_chars(&mut out, &version_chars);
        out.push('"');
        out.push('\n');
        append_str(&mut out, "description = \"");
        let desc_chars = escape_chars(&chars_of(c.description.as_str()));
        append_chars(&mut out, &desc_chars);
        out.push('"');
        out.push('\n');
        out.push('\n');
        proof {
            let vs = views_of(records@);
            let tail = vs.subrange(i as int, vs.len() as int);
            assert(tail[0] == records@[i as int]@);
            assert(tail.drop_first() =~= vs.subrange(i + 1 as int, vs.len() as int));
            assert(out@ =~= out0 + record_text(tail[0]));
            assert(out0 + (record_text(tail[0]) + index_text(tail.drop_first())) =~= (out0
                + record_text(tail[0])) + index_text(tail.drop_first()));
        }
        i += 1;
    }
    assert(views_of(records@).subrange(i as int, records@.len() as int)
        =~= Seq::<(Seq<char>, Seq<char>, Seq<char>)>::empty());
    assert(out@ =~= index_text(views_of(records@)));
    string_of(&out)
}

/// The fixed pieces of the on-disk format hold no newline, and the header
/// line is not blank.
proof fn lemma_format_literals()
    ensures
        no_newline("[[crates]]"@),
        no_newline("name = \""@),
        no_newline("version = \""@),
        no_newline("description = \""@),
        "[[crates]]"@.len() == 10,
        "name = \""@.len() == 8,
        "version = \""@.len() == 11,
        "description = \""@.len() == 15,
{
    reveal_strlit("[[crates]]");
    reveal_strlit("name = \"");
    reveal_strlit("version = \"");
    reveal_strlit("description = \"");
    assert("[[crates]]"@ =~= seq!['[', '[', 'c', 'r', 'a', 't', 'e', 's', ']', ']']);
    assert("name = \""@ =~= seq!['n', 'a', 'm', 'e', ' ', '=', ' ', '"']);
    assert("version = \""@ =~= seq!['v', 'e', 'r', 's', 'i', 'o', 'n', ' ', '=', ' ', '"']);
    assert("description = \""@ =~= seq![
        'd',
        'e',
        's',
        'c',
        'r',
        'i',
        'p',
        't',
        'i',
        'o',
        'n',
        ' ',
        '=',
        ' ',
        '"',
    ]);
}

/// Reads the value out of a `key = "value"` line: the fixed prefix, any
/// characters, and a closing quote.
pub open spec fn parse_field(line: Seq<char>, prefix: Seq<char>) -> Option<Seq<char>> {
    if line.len() >= prefix.len() + 1 && line.subrange(0, prefix.len() as int) == prefix
        && line.last() == '"' {
        Some(line.subrange(prefix.len() as int, line.len() - 1))
    } else {
        None
    }
}

/// Parses a sequence of lines as serialized records: blank lines are
/// skipped, every block must be a header line followed by the three field
/// lines, and anything else is malformed.
pub open spec fn parse_lines(ls: Seq<Seq<char>>) -> Option<
    Seq<(Seq<char>, Seq<char>, Seq<char>)>,
>
    decreases ls.len(),
{
    if ls.len() == 0 {
        Some(Seq::empty())
    } else if ls[0].len() == 0 {
        parse_lines(ls.drop_first())
    } else if ls[0] == "[[crates]]"@ && ls.len() >= 4 {
        let n = parse_field(ls[1], "name = \""@);
        let v = parse_field(ls[2], "version = \""@);
        let d = parse_field(ls[3], "description = \""@);
        if n is Some && v is Some && d is Some {
            match parse_lines(ls.subrange(4, ls.len() as int)) {
                Some(rest) => Some(
                    seq![
                        (
                            unescape_spec(n->Some_0),
                            unescape_spec(v->Some_0),
                            unescape_spec(d->Some_0),
                        ),
                    ] + rest,
                ),
                None => None,
            }
        } else {
            None
        }
    } else {
        None
    }
}

/// What the index text parses to, if it is well formed.
pub open spec fn parse_index_spec(t: Seq<char>) -> Option<Seq<(Seq<char>, Seq<char>, Seq<char>)>> {
    parse_lines(lines_spec(t))
}

/// Reads the value of a `key = "value"` line, or `None` when the line
/// does not have that shape.
fn parse_field_exec(line: &Vec<char>, prefix: &Vec<char>) -> (r: Option<Vec<char>>)
    ensures
        r is Some <==> parse_field(line@, prefix@) is Some,
        r is Some ==> r->Some_0@ == parse_field(line@, prefix@)->Some_0,
{
    if line.len() < 1 || line.len() - 1 < prefix.len() {
        return None;
    }
    if !starts_with_chars(line, prefix) {
        return None;
    }
    if line[line.len() - 1] != '"' {
        return None;
    }
    Some(slice_chars(line, prefix.len(), line.len() - 1))
}

/// Parses the persisted index text. Returns the records exactly as the
/// canonical format describes them, or `None` when the text is malformed.
#[verifier::loop_isolation(false)]
pub fn parse_index(text: &str) -> (r: Option<Vec<Crate>>)
    ensures
        r is Some <==> parse_index_spec(text@) is Some,
        r is Some ==> views_of(r->Some_0@) == parse_index_spec(text@)->Some_0,
{
    let tv = chars_of(text);
    let lines = split_lines(&tv);
    let ghost full = lines@.map_values(|l: Vec<char>| l@);
    let header = chars_of("[[crates]]");
    let name_prefix = chars_of("name = \"");
    let version_prefix = chars_of("version = \"");
    let desc_prefix = chars_of("description = \"");
    let mut acc: Vec<Crate> = Vec::new();
    let mut i: usize = 0;
    assert(full.subrange(0, full.len() as int) =~= full);
    assert(views_of(acc@) + parse_lines(full)->Some_0 =~= parse_lines(full)->Some_0);
    while i < lines.len()
        invariant
            i <= full.len(),
            full == lines@.map_values(|l: Vec<char>| l@),
            parse_lines(full) == match parse_lines(full.subrange(i as int, full.len() as int)) {
                Some(rest) => Some(views_of(acc@) + rest),
                None => None::<Seq<(Seq<char>, Seq<char>, Seq<char>)>>,
            },
        decreases full.len() - i,
    {
        let ghost tail = full.subrange(i as int, full.len() as int);
        assert(tail[0] == lines@[i as int]@);
        if lines[i].len() == 0 {
            assert(tail.drop_first() =~= full.subrange(i + 1 as int, full.len() as int));
            i += 1;
            continue;
        }
        if !chars_eq(&lines[i], &header) {
            assert(parse_lines(tail) is None);
            return None;
        }
        if lines.len() - i < 4 {
            assert(parse_lines(tail) is None);
            return None;
        }
        assert(tail[1] == lines@[i + 1]@ && tail[2] == lines@[i + 2]@ && tail[3] == lines@[i
            + 3]@);
        let nf = parse_field_exec(&lines[i + 1], &name_prefix);
        let vf = parse_field_exec(&lines[i + 2], &version_prefix);
        let df = parse_field_exec(&lines[i + 3], &desc_prefix);
        match (nf, vf, df) {
            (Some(n), Some(v), Some(d)) => {
                let rec = Crate {
                    name: string_of(&unescape_chars(&n)),
                    version: string_of(&unescape_chars(&v)),
                    description: string_of(&unescape_chars(&d)),
                };
                let ghost acc0 = acc@;
                acc.push(rec);
                proof {
                    assert(tail.subrange(4, tail.len() as int) =~= full.subrange(
                        i + 4 as int,
                        full.len() as int,
                    ));
                    assert(views_of(acc@) =~= views_of(acc0).push(rec@));
                    let rv = (
                        unescape_spec(parse_field(tail[1], "name = \""@)->Some_0),
                        unescape_spec(parse_field(tail[2], "version = \""@)->Some_0),
                        unescape_spec(parse_field(tail[3], "description = \""@)->Some_0),
                    );
                    assert(rec@ == rv);
                    if parse_lines(full.subrange(i + 4 as int, full.len() as int)) is Some {
                        let rest = parse_lines(
                            full.subrange(i + 4 as int, full.len() as int),
                        )->Some_0;
                        assert(views_of(acc0) + (seq![rv] + rest) =~= views_of(acc@) + rest);
                    }
                }
                i += 4;
            },
            _ => {
                assert(parse_lines(tail) is None);
                return None;
            },
        }
    }
    assert(full.subrange(i as int, full.len() as int) =~= Seq::<Seq<char>>::empty());
    assert(parse_lines(full) == Some(views_of(acc@)));
    Some(acc)
}

/// The text of one record splits into exactly its five lines, whatever
/// follows it: escaping keeps every field value free of newlines.
proof fn lemma_lines_of_record(v: (Seq<char>, Seq<char>, Seq<char>), rest: Seq<char>)
    ensures
        lines_spec(record_text(v) + rest) == record_lines(v) + lines_spec(rest),
{
    lemma_format_literals();
    lemma_escape_no_newline(v.0);
    lemma_escape_no_newline(v.1);
    lemma_escape_no_newline(v.2);
    let hdr = "[[crates]]"@;
    let l1 = field_line("name = \""@, escape_spec(v.0));
    let l2 = field_line("version = \""@, escape_spec(v.1));
    let l3 = field_line("description = \""@, escape_spec(v.2));
    let t3 = Seq::<char>::empty() + seq!['\n'] + rest;
    let t2 = l3 + seq!['\n'] + t3;
    let t1 = l2 + seq!['\n'] + t2;
    let t0 = l1 + seq!['\n'] + t1;
    assert(record_text(v) + rest =~= hdr + seq!['\n'] + t0);
    assert(no_newline(l1)) by {
        assert(forall|i: int|
            0 <= i < "name = \""@.len() ==> l1[i] == "name = \""@[i]);
        assert(forall|i: int|
            0 <= i < escape_spec(v.0).len() ==> l1["name = \""@.len() + i] == escape_spec(
                v.0,
            )[i]);
        assert(l1[l1.len() - 1] == '"');
    }
    assert(no_newline(l2)) by {
        assert(forall|i: int|
            0 <= i < "version = \""@.len() ==> l2[i] == "version = \""@[i]);
        assert(forall|i: int|
            0 <= i < escape_spec(v.1).len() ==> l2["version = \""@.len() + i] == escape_spec(
                v.1,
            )[i]);
        assert(l2[l2.len() - 1] == '"');
    }
    assert(no_newline(l3)) by {
        assert(forall|i: int|
            0 <= i < "description = \""@.len() ==> l3[i] == "description = \""@[i]);
        assert(forall|i: int|
            0 <= i < escape_spec(v.2).len() ==> l3["description = \""@.len() + i]
                == escape_spec(v.2)[i]);
        assert(l3[l3.len() - 1] == '"');
    }
    lemma_lines_unfold(hdr, t0);
    lemma_lines_unfold(l1, t1);
    lemma_lines_unfold(l2, t2);
    lemma_lines_unfold(l3, t3);
    lemma_lines_unfold(Seq::<char>::empty(), rest);
    assert(lines_spec(record_text(v) + rest) =~= record_lines(v) + lines_spec(rest));
}

/// Parsing the five lines of a record recovers the record — unescaping
/// undoes the serializer's escaping — and leaves the rest of the lines
/// for the next block.
proof fn lemma_parse_record_lines(v: (Seq<char>, Seq<char>, Seq<char>), ls: Seq<Seq<char>>)
    ensures
        parse_lines(record_lines(v) + ls) == match parse_lines(ls) {
            Some(rest) => Some(seq![v] + rest),
            None => None::<Seq<(Seq<char>, Seq<char>, Seq<char>)>>,
        },
{
    lemma_format_literals();
    let whole = record_lines(v) + ls;
    assert(whole[0] == "[[crates]]"@);
    assert(whole[0].len() == 10);
    assert(whole[1] == field_line("name = \""@, escape_spec(v.0)));
    assert(whole[2] == field_line("version = \""@, escape_spec(v.1)));
    assert(whole[3] == field_line("description = \""@, escape_spec(v.2)));
    assert(parse_field(whole[1], "name = \""@) == Some(escape_spec(v.0))) by {
        assert(whole[1].subrange(0, 8) =~= "name = \""@);
        assert(whole[1].last() == '"');
        assert(whole[1].subrange(8, whole[1].len() - 1) =~= escape_spec(v.0));
    }
    assert(parse_field(whole[2], "version = \""@) == Some(escape_spec(v.1))) by {
        assert(whole[2].subrange(0, 11) =~= "version = \""@);
        assert(whole[2].last() == '"');
        assert(whole[2].subrange(11, whole[2].len() - 1) =~= escape_spec(v.1));
    }
    assert(parse_field(whole[3], "description = \""@) == Some(escape_spec(v.2))) by {
        assert(whole[3].subrange(0, 15) =~= "description = \""@);
        assert(whole[3].last() == '"');
        assert(whole[3].subrange(15, whole[3].len() - 1) =~= escape_spec(v.2));
    }
    lemma_unescape_escape(v.0);
    lemma_unescape_escape(v.1);
    lemma_unescape_escape(v.2);
    assert(whole.subrange(4, whole.len() as int) =~= seq![Seq::<char>::empty()] + ls);
    let blank = seq![Seq::<char>::empty()] + ls;
    assert(blank[0].len() == 0);
    assert(blank.drop_first() =~= ls);
    assert(parse_lines(blank) == parse_lines(ls));
    assert((v.0, v.1, v.2) == v);
    match parse_lines(ls) {
        Some(rest) => {
            assert(parse_lines(whole) == Some(seq![v] + rest));
        },
        None => {
            assert(parse_lines(whole) is None);
        },
    }
}

/// Round trip of the on-disk format: parsing a serialized index yields
/// exactly the records that were serialized, whatever their fields hold.
pub proof fn lemma_round_trip(vs: Seq<(Seq<char>, Seq<char>, Seq<char>)>)
    ensures
        parse_index_spec(index_text(vs)) == Some(vs),
    decreases vs.len(),
{
    if vs.len() == 0 {
        assert(index_text(vs) =~= Seq::<char>::empty());
        assert(lines_spec(Seq::<char>::empty()) =~= Seq::<Seq<char>>::empty());
    } else {
        lemma_round_trip(vs.drop_first());
        lemma_lines_of_record(vs[0], index_text(vs.drop_first()));
        lemma_parse_record_lines(vs[0], lines_spec(index_text(vs.drop_first())));
        assert(seq![vs[0]] + vs.drop_first() =~= vs);
    }
}

/// Loads the persisted index from what the reader found: `None` for a
/// missing or unreadable file, the file's text otherwise. A missing file
/// or text that does not parse yields an empty index and reports which
/// of the two happened, so the caller can decide on a rebuild.
pub fn load_index(content: Option<&str>) -> (r: (crate::database::LoadState, Vec<Crate>))
    ensures
        content is None ==> r.0 is Absent && r.1@.len() == 0,
        content matches Some(t) ==> ((parse_index_spec(t@) is None ==> (r.0 is Malformed
            && r.1@.len() == 0)) && (parse_index_spec(t@) is Some ==> (r.0 is Loaded && Some(
            views_of(r.1@),
        ) == parse_index_spec(t@)))),
{
    match content {
        None => (crate::database::LoadState::Absent, Vec::new()),
        Some(t) => match parse_index(t) {
            None => (crate::database::LoadState::Malformed, Vec::new()),
            Some(records) => (crate::database::LoadState::Loaded, records),
        },
    }
}

/// The text of the denylist file: one name per line.
pub open spec fn names_text(ns: Seq<Seq<char>>) -> Seq<char>
    decreases ns.len(),
{
    if ns.len() == 0 {
        Seq::empty()
    } else {
        ns[0] + seq!['\n'] + names_text(ns.drop_first())
    }
}

/// Serializes the denylist, one name per line.
pub fn serialize_denylist(names: &Vec<String>) -> (s: String)
    ensures
        s@ == names_text(names@.map_values(|n: String| n@)),
{
    let ghost ns = names@.map_values(|n: String| n@);
    let mut out: Vec<char> = Vec::new();
    let mut i: usize = 0;
    assert(ns.subrange(0, ns.len() as int) =~= ns);
    assert(out@ + names_text(ns) =~= names_text(ns));
    while i < names.len()
        invariant
            i <= ns.len(),
            ns == names@.map_values(|n: String| n@),
            out@ + names_text(ns.subrange(i as int, ns.len() as int)) == names_text(ns),
        decreases ns.len() - i,
    {
        let ghost out0 = out@;
        let ghost tail = ns.subrange(i as int, ns.len() as int);
        let name_chars = chars_of(names[i].as_str());
        append_chars(&mut out, &name_chars);
        out.push('\n');
        proof {
            assert(tail[0] == names@[i as int]@);
            assert(tail.drop_first() =~= ns.subrange(i + 1 as int, ns.len() as int));
            assert(out@ =~= out0 + (tail[0] + seq!['\n']));
            assert(out0 + (tail[0] + seq!['\n'] + names_text(tail.drop_first())) =~= (out0 + (
            tail[0] + seq!['\n'])) + names_text(tail.drop_first()));
        }
        i += 1;
    }
    assert(ns.subrange(i as int, ns.len() as int) =~= Seq::<Seq<char>>::empty());
    assert(out@ =~= names_text(ns));
    string_of(&out)
}

/// A line with a carriage-return line ending has the carriage return
/// dropped, so a denylist edited with CRLF endings reads the same.
pub open spec fn strip_cr(l: Seq<char>) -> Seq<char> {
    if l.len() > 0 && l.last() == '\r' {
        l.drop_last()
    } else {
        l
    }
}

/// Parses the denylist file: each line is one name; a carriage return
/// ending a line is not part of the name.
pub fn parse_denylist(text: &str) -> (r: Vec<String>)
    ensures
        r@.map_values(|n: String| n@) == lines_spec(text@).map_values(|l: Seq<char>| strip_cr(l)),
{
    let tv = chars_of(text);
    let lines = split_lines(&tv);
    let mut r: Vec<String> = Vec::new();
    let mut i: usize = 0;
    while i < lines.len()
        invariant
            i <= lines@.len(),
            r@.len() == i,
            forall|k: int| 0 <= k < i ==> #[trigger] r@[k]@ == strip_cr(lines@[k]@),
        decreases lines@.len() - i,
    {
        let line = &lines[i];
        let name: String = if line.len() > 0 && line[line.len() - 1] == '\r' {
            let trimmed = slice_chars(line, 0, line.len() - 1);
            assert(trimmed@ =~= line@.drop_last());
            string_of(&trimmed)
        } else {
            string_of(line)
        };
        r.push(name);
        i += 1;
    }
    assert(r@.map_values(|n: String| n@) =~= lines@.map_values(|l: Vec<char>| l@).map_values(
        |l: Seq<char>| strip_cr(l),
    ));
    r
}

/// Round trip of the denylist file: parsing the serialized list yields
/// exactly the names that were written, for names free of newlines that
/// do not end in a carriage return.
pub proof fn lemma_denylist_round_trip(ns: Seq<Seq<char>>)
    requires
        forall|i: int| 0 <= i < ns.len() ==> no_newline(#[trigger] ns[i]),
        forall|i: int|
            0 <= i < ns.len() ==> ((#[trigger] ns[i]).len() == 0 || ns[i].last() != '\r'),
    ensures
        lines_spec(names_text(ns)) == ns,
        lines_spec(names_text(ns)).map_values(|l: Seq<char>| strip_cr(l)) == ns,
    decreases ns.len(),
{
    if ns.len() == 0 {
        assert(lines_spec(names_text(ns)) =~= ns);
    } else {
        assert(forall|i: int|
            0 <= i < ns.drop_first().len() ==> no_newline(#[trigger] ns.drop_first()[i]));
        assert(forall|i: int|
            0 <= i < ns.drop_first().len() ==> ((#[trigger] ns.drop_first()[i]).len() == 0
                || ns.drop_first()[i].last() != '\r'));
        lemma_denylist_round_trip(ns.drop_first());
        lemma_lines_unfold(ns[0], names_text(ns.drop_first()));
        assert(seq![ns[0]] + ns.drop_first() =~= ns);
    }
    assert forall|k: int| 0 <= k < ns.len() implies strip_cr(#[trigger] ns[k]) == ns[k] by {
    }
    assert(lines_spec(names_text(ns)).map_values(|l: Seq<char>| strip_cr(l)) =~= ns);
}

} // verus!
