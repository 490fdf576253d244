//! Decisions behind the command-line surface: which action the arguments
//! select, which entry an interactive selection picks, the install
//! confirmation, and the text layout widths of the listings.

use vstd::prelude::*;

use crate::database::lemma_filter_push;
use crate::text::{
    append_chars, append_str, chars_of, lower_of, lowercase, str_eq, string_of, trim_chars,
    trim_spec,
};

verus! {

/// What one invocation is asked to do.
pub enum Action {
    /// Refresh against the registry and offer updates.
    FullUpdate,
    /// Search the given terms and offer an interactive install.
    SearchByName(Vec<String>),
    /// Install the named packages.
    InstallPackage(Vec<String>),
    /// Remove the named packages.
    RemovePackage(Vec<String>),
    /// List what is installed.
    ShowInstalled,
    /// Rebuild the local package index now, fresh or not.
    RefreshIndex,
}

/// The arguments after `from`, cloned in order.
fn tail_of(args: &Vec<String>, from: usize) -> (r: Vec<String>)
    requires
        from <= args@.len(),
    ensures
        r@.len() == args@.len() - from,
        forall|k: int| 0 <= k < r@.len() ==> r@[k] == args@[from + k],
{
    let mut r: Vec<String> = Vec::new();
    let mut i: usize = from;
    while i < args.len()
        invariant
            from <= i <= args@.len(),
            r@.len() == i - from,
            forall|k: int| 0 <= k < r@.len() ==> r@[k] == args@[from + k],
        decreases args@.len() - i,
    {
        r.push(args[i].clone());
        i += 1;
    }
    r
}

/// Maps the command-line arguments (the program name already dropped) to
/// an action: `-S` installs, `-R` removes, `--list` shows the installed
/// set, `--refresh` forces a rebuild of the local index, no arguments at
/// all refreshes everything, and anything else is a search for the given
/// terms.
pub fn parse_args(args: Vec<String>) -> (r: Action)
    ensures
        args@.len() == 0 ==> r is FullUpdate,
        args@.len() > 0 && args@[0]@ == "-S"@ ==> (r matches Action::InstallPackage(p) && p@
            =~= args@.subrange(1, args@.len() as int)),
        args@.len() > 0 && args@[0]@ == "-R"@ ==> (r matches Action::RemovePackage(p) && p@
            =~= args@.subrange(1, args@.len() as int)),
        args@.len() > 0 && args@[0]@ == "--list"@ ==> r is ShowInstalled,
        args@.len() > 0 && args@[0]@ == "--refresh"@ ==> r is RefreshIndex,
        (args@.len() > 0 && args@[0]@ != "-S"@ && args@[0]@ != "-R"@ && args@[0]@ != "--list"@
            && args@[0]@ != "--refresh"@) ==> (r matches Action::SearchByName(p) && p == args),
{
    proof {
        reveal_strlit("-S");
        reveal_strlit("-R");
        reveal_strlit("--list");
        reveal_strlit("--refresh");
        assert("-S"@ != "-R"@) by {
            assert("-S"@[1] == 'S' && "-R"@[1] == 'R');
        }
        assert("-S"@.len() == 2 && "-R"@.len() == 2 && "--list"@.len() == 6 && "--refresh"@.len()
            == 9);
    }
    if args.len() == 0 {
        return Action::FullUpdate;
    }
    if str_eq(args[0].as_str(), "-S") {
        let rest = tail_of(&args, 1);
        assert(rest@ =~= args@.subrange(1, args@.len() as int));
        return Action::InstallPackage(rest);
    }
    if str_eq(args[0].as_str(), "-R") {
        let rest = tail_of(&args, 1);
        assert(rest@ =~= args@.subrange(1, args@.len() as int));
        return Action::RemovePackage(rest);
    }
    if str_eq(args[0].as_str(), "--list") {
        return Action::ShowInstalled;
    }
    if str_eq(args[0].as_str(), "--refresh") {
        return Action::RefreshIndex;
    }
    Action::SearchByName(args)
}

/// Why an interactive selection was rejected.
#[derive(Debug, PartialEq, Eq)]
pub enum SelectError {
    /// The number picks no entry (zero picks the slot past the list).
    Zero,
    /// The number is larger than the number of entries on offer.
    OutOfRange,
}

/// Maps the number the user typed to an index into the result list. The
/// list is printed with entry `i` labelled `num - i`, so typing `k`
/// picks index `num - k`: valid exactly for `1 <= k <= num`.
pub fn select_index(num: usize, input: usize) -> (r: Result<usize, SelectError>)
    ensures
        1 <= input <= num ==> (r matches Ok(i) && i == num - input),
        input > num ==> (r matches Err(e) && e is OutOfRange),
        input == 0 ==> (r matches Err(e) && e is Zero),
{
    if num < input {
        return Err(SelectError::OutOfRange);
    }
    if input == 0 {
        return Err(SelectError::Zero);
    }
    Ok(num - input)
}

/// The answer accepts the offered installation: an empty answer (a bare
/// newline) or a `y` in any case, after trimming whitespace.
pub fn accepts_install(answer: &str) -> (r: bool)
    ensures
        r == (trim_spec(answer@).len() == 0 || lower_of(trim_spec(answer@)) == "y"@),
{
    let av = chars_of(answer);
    let t = trim_chars(&av);
    if t.len() == 0 {
        return true;
    }
    let ts = string_of(&t);
    let low = lowercase(ts.as_str());
    str_eq(low.as_str(), "y")
}

/// Keeps the terms that are not option flags.
pub open spec fn non_flag(s: Seq<char>) -> bool {
    !(s.len() >= 1 && s[0] == '-')
}

/// The terms joined with single spaces.
pub open spec fn join_spec(ps: Seq<Seq<char>>) -> Seq<char>
    decreases ps.len(),
{
    if ps.len() == 0 {
        Seq::empty()
    } else if ps.len() == 1 {
        ps[0]
    } else {
        join_spec(ps.drop_last()) + seq![' '] + ps.last()
    }
}

/// Joins the package terms that are not option flags into one
/// space-separated listing, in order.
pub fn join_non_flags(packages: &Vec<String>) -> (r: String)
    ensures
        r@ == join_spec(packages@.map_values(|p: String| p@).filter(|s: Seq<char>| non_flag(s))),
{
    let ghost pred = |s: Seq<char>| non_flag(s);
    let ghost views = packages@.map_values(|p: String| p@);
    let mut out: Vec<char> = Vec::new();
    let mut first = true;
    let mut i: usize = 0;
    proof {
        reveal(Seq::filter);
        assert(views.subrange(0, 0).filter(pred) =~= Seq::<Seq<char>>::empty());
    }
    while i < packages.len()
        invariant
            i <= views.len(),
            views == packages@.map_values(|p: String| p@),
            pred == (|s: Seq<char>| non_flag(s)),
            out@ == join_spec(views.subrange(0, i as int).filter(pred)),
            first == (views.subrange(0, i as int).filter(pred).len() == 0),
        decreases views.len() - i,
    {
        let p = &packages[i];
        let flag = p.as_str().unicode_len() >= 1 && p.as_str().get_char(0) == '-';
        proof {
            assert(views.subrange(0, i + 1 as int).drop_last() =~= views.subrange(0, i as int));
            lemma_filter_push(views.subrange(0, i as int), views[i as int], pred);
            assert(views.subrange(0, i as int).push(views[i as int]) =~= views.subrange(
                0,
                i + 1 as int,
            ));
        }
        if !flag {
            assert(pred(views[i as int]));
            let pv = chars_of(p.as_str());
            if first {
                append_chars(&mut out, &pv);
                first = false;
            } else {
                out.push(' ');
                append_chars(&mut out, &pv);
                proof {
                    let fs = views.subrange(0, i as int).filter(pred);
                    assert(fs.push(views[i as int]).drop_last() =~= fs);
                    assert(out@ =~= join_spec(fs) + seq![' '] + views[i as int]);
                }
            }
        } else {
            assert(!pred(views[i as int]));
        }
        i += 1;
    }
    assert(views.subrange(0, i as int) =~= views);
    string_of(&out)
}

/// The longest name in `pairs`, measured in bytes — the column width an
/// aligned listing needs — or zero for an empty list.
pub open spec fn name_width(ps: Seq<(String, String)>) -> int
    decreases ps.len(),
{
    if ps.len() == 0 {
        0
    } else {
        let rest = name_width(ps.drop_last());
        let last = (vstd::utf8::encode_utf8(ps.last().0@).len() as usize) as int;
        if last > rest {
            last
        } else {
            rest
        }
    }
}

/// The widest entry of one column of the update table, measured in
/// bytes, at least `floor`: column 0 holds names, 1 the installed
/// versions, 2 the available versions.
pub open spec fn triple_width(rows: Seq<(String, String, String)>, col: int, floor: int) -> int
    decreases rows.len(),
{
    if rows.len() == 0 {
        floor
    } else {
        let rest = triple_width(rows.drop_last(), col, floor);
        let s = if col == 0 {
            rows.last().0
        } else if col == 1 {
            rows.last().1
        } else {
            rows.last().2
        };
        let l = (vstd::utf8::encode_utf8(s@).len() as usize) as int;
        if l > rest {
            l
        } else {
            rest
        }
    }
}

/// The three column widths of the update table. The floors are the byte
/// widths of the column headings `Name`, `Installed` and `Available`, so
/// the headings always fit.
pub fn update_table_widths(rows: &Vec<(String, String, String)>) -> (r: (usize, usize, usize))
    ensures
        r.0 == triple_width(rows@, 0, 4),
        r.1 == triple_width(rows@, 1, 9),
        r.2 == triple_width(rows@, 2, 9),
{
    let mut w0: usize = 4;
    let mut w1: usize = 9;
    let mut w2: usize = 9;
    let mut i: usize = 0;
    while i < rows.len()
        invariant
            i <= rows@.len(),
            w0 == triple_width(rows@.subrange(0, i as int), 0, 4),
            w1 == triple_width(rows@.subrange(0, i as int), 1, 9),
            w2 == triple_width(rows@.subrange(0, i as int), 2, 9),
        decreases rows@.len() - i,
    {
        proof {
            assert(rows@.subrange(0, i + 1 as int).drop_last() =~= rows@.subrange(0, i as int));
            assert(rows@.subrange(0, i + 1 as int).last() == rows@[i as int]);
        }
        let l0 = rows[i].0.as_str().len();
        if l0 > w0 {
            w0 = l0;
        }
        let l1 = rows[i].1.as_str().len();
        if l1 > w1 {
            w1 = l1;
        }
        let l2 = rows[i].2.as_str().len();
        if l2 > w2 {
            w2 = l2;
        }
        i += 1;
    }
    assert(rows@.subrange(0, i as int) =~= rows@);
    (w0, w1, w2)
}

/// The byte width of the longest name of `pairs`, zero when empty.
pub fn max_name_width(pairs: &Vec<(String, String)>) -> (r: usize)
    ensures
        r == name_width(pairs@),
{
    let mut w: usize = 0;
    let mut i: usize = 0;
    while i < pairs.len()
        invariant
            i <= pairs@.len(),
            w == name_width(pairs@.subrange(0, i as int)),
        decreases pairs@.len() - i,
    {
        let l = pairs[i].0.as_str().len();
        proof {
            assert(pairs@.subrange(0, i + 1 as int).drop_last() =~= pairs@.subrange(0, i as int));
            assert(pairs@.subrange(0, i + 1 as int).last() == pairs@[i as int]);
        }
        if l > w {
            w = l;
        }
        i += 1;
    }
    assert(pairs@.subrange(0, i as int) =~= pairs@);
    w
}

} // verus!
