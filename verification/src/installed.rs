//! Parsers for text handed over by the host package manager: the
//! installed-registry file (a `[v1]` table whose keys begin with a package
//! name and version) and the output of the manager's own search command.

use vstd::prelude::*;

use crate::store::lines_spec;
use crate::store::split_lines;
use crate::text::{
    chars_eq, chars_of, find_char, find_space, first_idx, first_space_idx, is_space,
    lemma_first_idx_is, lemma_first_space_idx_is, slice_chars, string_of, trim_chars, trim_spec,
    trim_start_chars, trim_start_spec,
};

verus! {

/// The trimmed cell with its first and last characters — the quotes
/// around a version — removed.
pub open spec fn unquote(t: Seq<char>) -> Seq<char> {
    if t.len() >= 2 {
        t.subrange(1, t.len() - 1)
    } else {
        Seq::empty()
    }
}

/// The part of `s` before its first `#`, or all of `s` if it has none.
pub open spec fn before_hash(s: Seq<char>) -> Seq<char> {
    s.subrange(0, first_idx(s, '#') as int)
}

/// The part of `s` between its first and second `#`, up to the end if
/// there is no second one, or empty if `s` has no `#` at all.
pub open spec fn second_cell(s: Seq<char>) -> Seq<char> {
    if first_idx(s, '#') < s.len() {
        let rest = s.subrange(first_idx(s, '#') as int + 1, s.len() as int);
        rest.subrange(0, first_idx(rest, '#') as int)
    } else {
        Seq::empty()
    }
}

/// What a `"version" # description` cell parses to: the quoted version
/// (quotes dropped) and the trimmed description. A cell whose version
/// part trims to nothing is malformed.
pub open spec fn version_desc_spec(s: Seq<char>) -> Option<(Seq<char>, Seq<char>)> {
    let vcell = trim_spec(before_hash(s));
    if vcell.len() == 0 {
        None
    } else {
        Some((unquote(vcell), trim_spec(second_cell(s))))
    }
}

/// Parses the `"version" # description` cell of a search-output line:
/// the version is the trimmed text before the first `#` with its quotes
/// dropped, the description the trimmed text between the first and
/// second `#`. The description is optional; a cell with no version text
/// at all is rejected.
pub fn parse_version_desc(s: &str) -> (r: Option<(String, String)>)
    ensures
        r is Some <==> version_desc_spec(s@) is Some,
        r matches Some(p) ==> Some((p.0@, p.1@)) == version_desc_spec(s@),
{
    let v = chars_of(s);
    let n = v.len();
    let h1 = find_char(&v, 0, '#');
    let vend: usize = match h1 {
        Some(i) => i,
        None => n,
    };
    proof {
        lemma_first_idx_is(v@, '#', vend as int);
    }
    let vc_raw = slice_chars(&v, 0, vend);
    let vcell = trim_chars(&vc_raw);
    if vcell.len() == 0 {
        return None;
    }
    let version: Vec<char> = if vcell.len() >= 2 {
        slice_chars(&vcell, 1, vcell.len() - 1)
    } else {
        Vec::new()
    };
    assert(version@ =~= unquote(vcell@));
    let d_raw: Vec<char> = match h1 {
        Some(i) => {
            let rest = slice_chars(&v, i + 1, n);
            let d_end: usize = match find_char(&rest, 0, '#') {
                Some(j) => j,
                None => rest.len(),
            };
            proof {
                lemma_first_idx_is(rest@, '#', d_end as int);
            }
            slice_chars(&rest, 0, d_end)
        },
        None => Vec::new(),
    };
    assert(d_raw@ =~= second_cell(v@));
    let dpart = trim_chars(&d_raw);
    Some((string_of(&version), string_of(&dpart)))
}

/// What one line of search output parses to: the trimmed name before the
/// first `=`, and the version/description cell between the first and
/// second `=`. A continuation line (starting with `...`) and a line with
/// no `=` carry no record.
pub open spec fn search_line_spec(l: Seq<char>) -> Option<(Seq<char>, Seq<char>, Seq<char>)> {
    if l.len() >= 3 && l.subrange(0, 3) == "..."@ {
        None
    } else if first_idx(l, '=') >= l.len() {
        None
    } else {
        let name = trim_spec(l.subrange(0, first_idx(l, '=') as int));
        let rest = l.subrange(first_idx(l, '=') as int + 1, l.len() as int);
        let cell = rest.subrange(0, first_idx(rest, '=') as int);
        match version_desc_spec(cell) {
            Some(p) => Some((name, p.0, p.1)),
            None => None,
        }
    }
}

/// Parses one line of the search command's output.
pub fn parse_search_line(l: &Vec<char>) -> (r: Option<(String, String, String)>)
    ensures
        r is Some <==> search_line_spec(l@) is Some,
        r matches Some(t) ==> Some((t.0@, t.1@, t.2@)) == search_line_spec(l@),
{
    let dots = chars_of("...");
    if l.len() >= 3 {
        let head = slice_chars(l, 0, 3);
        if chars_eq(&head, &dots) {
            return None;
        }
    }
    let n = l.len();
    let e1: usize = match find_char(l, 0, '=') {
        Some(i) => i,
        None => {
            proof {
                lemma_first_idx_is(l@, '=', n as int);
            }
            return None;
        },
    };
    proof {
        lemma_first_idx_is(l@, '=', e1 as int);
    }
    let name_raw = slice_chars(l, 0, e1);
    let name = trim_chars(&name_raw);
    let rest = slice_chars(l, e1 + 1, n);
    let e2: usize = match find_char(&rest, 0, '=') {
        Some(j) => j,
        None => rest.len(),
    };
    proof {
        lemma_first_idx_is(rest@, '=', e2 as int);
    }
    let cell = slice_chars(&rest, 0, e2);
    let cell_str = string_of(&cell);
    match parse_version_desc(cell_str.as_str()) {
        Some(p) => Some((string_of(&name), p.0, p.1)),
        None => None,
    }
}

/// The records of a whole search output: each line parsed, lines that
/// carry no record skipped.
pub open spec fn search_results_spec(ls: Seq<Seq<char>>) -> Seq<(Seq<char>, Seq<char>, Seq<char>)>
    decreases ls.len(),
{
    if ls.len() == 0 {
        Seq::empty()
    } else {
        match search_line_spec(ls[0]) {
            Some(t) => seq![t] + search_results_spec(ls.drop_first()),
            None => search_results_spec(ls.drop_first()),
        }
    }
}

/// Parses the search command's whole output, line by line.
#[verifier::loop_isolation(false)]
pub fn parse_search_output(text: &str) -> (r: Vec<(String, String, String)>)
    ensures
        r@.map_values(|t: (String, String, String)| (t.0@, t.1@, t.2@)) == search_results_spec(
            lines_spec(text@),
        ),
{
    let tv = chars_of(text);
    let lines = split_lines(&tv);
    let ghost full = lines@.map_values(|l: Vec<char>| l@);
    let ghost view3 = |t: (String, String, String)| (t.0@, t.1@, t.2@);
    let mut r: Vec<(String, String, String)> = Vec::new();
    let mut i: usize = 0;
    assert(full.subrange(0, full.len() as int) =~= full);
    assert(r@.map_values(view3) + search_results_spec(full) =~= search_results_spec(full));
    while i < lines.len()
        invariant
            i <= full.len(),
            full == lines@.map_values(|l: Vec<char>| l@),
            view3 == (|t: (String, String, String)| (t.0@, t.1@, t.2@)),
            search_results_spec(full) == r@.map_values(view3) + search_results_spec(
                full.subrange(i as int, full.len() as int),
            ),
        decreases full.len() - i,
    {
        let ghost tail = full.subrange(i as int, full.len() as int);
        assert(tail[0] == lines@[i as int]@);
        assert(tail.drop_first() =~= full.subrange(i + 1 as int, full.len() as int));
        let ghost r0 = r@;
        match parse_search_line(&lines[i]) {
            Some(t) => {
                r.push(t);
                proof {
                    let st = search_line_spec(tail[0])->Some_0;
                    assert(r@.map_values(view3) =~= r0.map_values(view3).push(st));
                    assert(r0.map_values(view3) + (seq![st] + search_results_spec(
                        tail.drop_first(),
                    )) =~= r@.map_values(view3) + search_results_spec(tail.drop_first()));
                }
            },
            None => {},
        }
        i += 1;
    }
    assert(search_results_spec(full.subrange(i as int, full.len() as int))
        =~= Seq::<(Seq<char>, Seq<char>, Seq<char>)>::empty());
    assert(r@.map_values(view3) =~= search_results_spec(full));
    r
}

/// The quoted key at the start of a trimmed entry line: the text between
/// the opening quote and the next quote. The text after the closing
/// quote — the entry's value — is not inspected.
pub open spec fn entry_key(t: Seq<char>) -> Option<Seq<char>> {
    if t.len() >= 1 && t[0] == '"' {
        let rest = t.subrange(1, t.len() as int);
        if first_idx(rest, '"') < rest.len() {
            Some(rest.subrange(0, first_idx(rest, '"') as int))
        } else {
            None
        }
    } else {
        None
    }
}

/// The first two whitespace-separated tokens of a key — the package name
/// and its version — or nothing when the key has fewer than two tokens.
pub open spec fn key_pair(k: Seq<char>) -> Option<(Seq<char>, Seq<char>)> {
    let t1 = trim_start_spec(k);
    let i1 = first_space_idx(t1) as int;
    if t1.len() == 0 || i1 >= t1.len() {
        None
    } else {
        let t2 = trim_start_spec(t1.subrange(i1, t1.len() as int));
        if t2.len() == 0 {
            None
        } else {
            Some((t1.subrange(0, i1), t2.subrange(0, first_space_idx(t2) as int)))
        }
    }
}

/// The entries of the `[v1]` table, line by line: whitespace-only lines
/// are skipped, every other line must open with a quoted key, and a key
/// with fewer than two tokens is skipped rather than an error.
pub open spec fn installed_entries(ls: Seq<Seq<char>>) -> Option<Seq<(Seq<char>, Seq<char>)>>
    decreases ls.len(),
{
    if ls.len() == 0 {
        Some(Seq::empty())
    } else {
        let t = trim_spec(ls[0]);
        if t.len() == 0 {
            installed_entries(ls.drop_first())
        } else {
            match entry_key(t) {
                None => None,
                Some(k) => match key_pair(k) {
                    None => installed_entries(ls.drop_first()),
                    Some(p) => match installed_entries(ls.drop_first()) {
                        Some(rest) => Some(seq![p] + rest),
                        None => None,
                    },
                },
            }
        }
    }
}

/// The whole installed-registry file: blank lines, a `[v1]` header, and
/// the table's entries. A file of nothing but whitespace holds no
/// entries; any other opening line is malformed.
pub open spec fn installed_spec(ls: Seq<Seq<char>>) -> Option<Seq<(Seq<char>, Seq<char>)>>
    decreases ls.len(),
{
    if ls.len() == 0 {
        Some(Seq::empty())
    } else {
        let t = trim_spec(ls[0]);
        if t.len() == 0 {
            installed_spec(ls.drop_first())
        } else if t == "[v1]"@ {
            installed_entries(ls.drop_first())
        } else {
            None
        }
    }
}

/// What the installed-registry text parses to, if it is well formed.
pub open spec fn parse_installed_spec(t: Seq<char>) -> Option<Seq<(Seq<char>, Seq<char>)>> {
    installed_spec(lines_spec(t))
}

/// The name and version tokens of one key.
fn key_pair_exec(k: &Vec<char>) -> (r: Option<(Vec<char>, Vec<char>)>)
    ensures
        r is Some <==> key_pair(k@) is Some,
        r matches Some(p) ==> Some((p.0@, p.1@)) == key_pair(k@),
{
    let t1 = trim_start_chars(k);
    if t1.len() == 0 {
        return None;
    }
    let i1: usize = match find_space(&t1, 0) {
        Some(i) => i,
        None => {
            proof {
                lemma_first_space_idx_is(t1@, t1@.len() as int);
            }
            return None;
        },
    };
    proof {
        lemma_first_space_idx_is(t1@, i1 as int);
    }
    let token1 = slice_chars(&t1, 0, i1);
    let t2_raw = slice_chars(&t1, i1, t1.len());
    let t2 = trim_start_chars(&t2_raw);
    if t2.len() == 0 {
        return None;
    }
    let i2: usize = match find_space(&t2, 0) {
        Some(i) => i,
        None => t2.len(),
    };
    proof {
        lemma_first_space_idx_is(t2@, i2 as int);
    }
    let token2 = slice_chars(&t2, 0, i2);
    Some((token1, token2))
}

/// Parses the host package manager's installed-registry text: the keys
/// of its `[v1]` table, each contributing its first two tokens as a
/// package name and version. Yields `None` when the table is malformed;
/// a file of nothing but whitespace yields no entries.
#[verifier::loop_isolation(false)]
pub fn parse_installed(text: &str) -> (r: Option<Vec<(String, String)>>)
    ensures
        r is Some <==> parse_installed_spec(text@) is Some,
        r matches Some(entries) ==> Some(
            entries@.map_values(|p: (String, String)| (p.0@, p.1@)),
        ) == parse_installed_spec(text@),
{
    let tv = chars_of(text);
    let lines = split_lines(&tv);
    let ghost full = lines@.map_values(|l: Vec<char>| l@);
    let ghost view2 = |p: (String, String)| (p.0@, p.1@);
    let header = chars_of("[v1]");
    let mut i: usize = 0;
    assert(full.subrange(0, full.len() as int) =~= full);
    while i < lines.len()
        invariant
            i <= full.len(),
            full == lines@.map_values(|l: Vec<char>| l@),
            installed_spec(full) == installed_spec(full.subrange(i as int, full.len() as int)),
            forall|k: int| 0 <= k < i ==> trim_spec(full[k]).len() == 0,
        decreases full.len() - i,
    {
        let ghost tail = full.subrange(i as int, full.len() as int);
        assert(tail[0] == lines@[i as int]@);
        assert(tail.drop_first() =~= full.subrange(i + 1 as int, full.len() as int));
        let t = trim_chars(&lines[i]);
        if t.len() == 0 {
            i += 1;
            continue;
        }
        if !chars_eq(&t, &header) {
            assert(installed_spec(tail) is None);
            return None;
        }
        // The header line is in hand; read the table's entries.
        let mut acc: Vec<(String, String)> = Vec::new();
        let mut j: usize = i + 1;
        assert(installed_entries(full.subrange(j as int, full.len() as int)) == installed_entries(
            tail.drop_first(),
        ));
        assert(acc@.map_values(view2) =~= Seq::<(Seq<char>, Seq<char>)>::empty());
        while j < lines.len()
            invariant
                i < j <= full.len(),
                full == lines@.map_values(|l: Vec<char>| l@),
                view2 == (|p: (String, String)| (p.0@, p.1@)),
                installed_spec(full) == match installed_entries(
                    full.subrange(j as int, full.len() as int),
                ) {
                    Some(rest) => Some(acc@.map_values(view2) + rest),
                    None => None::<Seq<(Seq<char>, Seq<char>)>>,
                },
            decreases full.len() - j,
        {
            let ghost etail = full.subrange(j as int, full.len() as int);
            assert(etail[0] == lines@[j as int]@);
            assert(etail.drop_first() =~= full.subrange(j + 1 as int, full.len() as int));
            let et = trim_chars(&lines[j]);
            if et.len() == 0 {
                j += 1;
                continue;
            }
            if et[0] != '"' {
                assert(entry_key(trim_spec(etail[0])) is None);
                assert(installed_spec(full) is None);
                return None;
            }
            let rest = slice_chars(&et, 1, et.len());
            let q: usize = match find_char(&rest, 0, '"') {
                Some(q) => q,
                None => {
                    proof {
                        lemma_first_idx_is(rest@, '"', rest@.len() as int);
                        assert(entry_key(trim_spec(etail[0])) is None);
                    }
                    assert(installed_spec(full) is None);
                    return None;
                },
            };
            proof {
                lemma_first_idx_is(rest@, '"', q as int);
            }
            let key = slice_chars(&rest, 0, q);
            assert(entry_key(trim_spec(etail[0])) == Some(key@));
            let ghost acc0 = acc@;
            match key_pair_exec(&key) {
                Some(p) => {
                    let ghost sp = key_pair(key@)->Some_0;
                    acc.push((string_of(&p.0), string_of(&p.1)));
                    proof {
                        assert(acc@.map_values(view2) =~= acc0.map_values(view2).push(sp));
                        if installed_entries(etail.drop_first()) is Some {
                            let erest = installed_entries(etail.drop_first())->Some_0;
                            assert(acc0.map_values(view2) + (seq![sp] + erest) =~= acc@.map_values(
                                view2,
                            ) + erest);
                        }
                    }
                },
                None => {},
            }
            j += 1;
        }
        assert(full.subrange(j as int, full.len() as int) =~= Seq::<Seq<char>>::empty());
        assert(installed_spec(full) == Some(acc@.map_values(view2)));
        return Some(acc);
    }
    assert(full.subrange(i as int, full.len() as int) =~= Seq::<Seq<char>>::empty());
    let r: Vec<(String, String)> = Vec::new();
    assert(r@.map_values(view2) =~= Seq::<(Seq<char>, Seq<char>)>::empty());
    Some(r)
}

} // verus!
