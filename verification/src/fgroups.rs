//! Grouping names by fingerprint. Each input line holds a fingerprint,
//! a space or tab, and a name (whose leading whitespace is dropped, and
//! whose trailing whitespace is kept); lines without both parts are
//! discarded. Groups keep the order in which their fingerprints first
//! appeared, and each group's names keep their input order.

use vstd::prelude::*;
use vstd::string::StrSliceExecFns;
use vstd::string::StringExecFns;

verus! {

/// Whether the character has the Unicode White_Space property.
pub uninterp spec fn unicode_whitespace(c: char) -> bool;

/// Relies on char::is_whitespace: true exactly of characters with the
/// Unicode White_Space property; space and tab are among them.
#[verifier::external_body]
fn char_is_whitespace(c: char) -> (r: bool)
    ensures
        r == unicode_whitespace(c),
        c == ' ' || c == '\t' ==> r,
{
    c.is_whitespace()
}

/// The characters that separate a fingerprint from a name.
pub open spec fn is_sep(c: char) -> bool {
    c == ' ' || c == '\t'
}

/// A line's fingerprint and raw name: the parts before and after its
/// first separator, or nothing when no separator occurs.
pub open spec fn parse_line(s: Seq<char>) -> Option<(Seq<char>, Seq<char>)>
    decreases s.len(),
{
    if s.len() == 0 {
        None
    } else if is_sep(s[0]) {
        Some((Seq::empty(), s.drop_first()))
    } else {
        match parse_line(s.drop_first()) {
            None => None,
            Some((g, n)) => Some((seq![s[0]] + g, n)),
        }
    }
}

/// The sequence without its leading whitespace.
pub open spec fn trim_leading(s: Seq<char>) -> Seq<char>
    decreases s.len(),
{
    if s.len() > 0 && unicode_whitespace(s[0]) {
        trim_leading(s.drop_first())
    } else {
        s
    }
}

/// One name filed under its group: appended to the group's names if the
/// fingerprint already has a group, else opening a new group at the end.
pub open spec fn file_name(
    groups: Seq<(Seq<char>, Seq<Seq<char>>)>,
    g: Seq<char>,
    n: Seq<char>,
) -> Seq<(Seq<char>, Seq<Seq<char>>)>
    decreases groups.len(),
{
    if groups.len() == 0 {
        seq![(g, seq![n])]
    } else if groups[0].0 == g {
        seq![(g, groups[0].1.push(n))] + groups.drop_first()
    } else {
        seq![groups[0]] + file_name(groups.drop_first(), g, n)
    }
}

/// All lines folded into groups, in input order.
pub open spec fn assemble_spec(lines: Seq<Seq<char>>) -> Seq<(Seq<char>, Seq<Seq<char>>)>
    decreases lines.len(),
{
    if lines.len() == 0 {
        Seq::empty()
    } else {
        let rest = assemble_spec(lines.drop_last());
        match parse_line(lines.last()) {
            None => rest,
            Some((g, n)) => file_name(rest, g, trim_leading(n)),
        }
    }
}

/// A fingerprint and the names filed under it.
pub struct Group {
    pub fingerprint: String,
    pub names: Vec<String>,
}

/// The mathematical content of a sequence of groups.
pub open spec fn groups_view(gs: Seq<Group>) -> Seq<(Seq<char>, Seq<Seq<char>>)> {
    gs.map_values(|g: Group| (g.fingerprint@, g.names.deep_view()))
}

/// The position of the line's first separator, if it has one.
fn find_sep(s: &str) -> (r: Option<usize>)
    ensures
        match r {
            Some(i) => i < s@.len() && is_sep(s@[i as int]) && forall|j: int|
                0 <= j < i ==> !is_sep(s@[j]),
            None => forall|j: int| 0 <= j < s@.len() ==> !is_sep(s@[j]),
        },
{
    let n = s.unicode_len();
    let mut i: usize = 0;
    while i < n
        invariant
            n == s@.len(),
            i <= n,
            forall|j: int| 0 <= j < i ==> !is_sep(s@[j]),
        decreases n - i,
    {
        let c = s.get_char(i);
        if c == ' ' || c == '\t' {
            return Some(i);
        }
        i += 1;
    }
    None
}

/// The position of the first character that is not whitespace, or the
/// length if every character is.
fn skip_whitespace(s: &str) -> (k: usize)
    ensures
        k <= s@.len(),
        forall|j: int| 0 <= j < k ==> unicode_whitespace(s@[j]),
        k < s@.len() ==> !unicode_whitespace(s@[k as int]),
{
    let n = s.unicode_len();
    let mut k: usize = 0;
    while k < n
        invariant
            n == s@.len(),
            k <= n,
            forall|j: int| 0 <= j < k ==> unicode_whitespace(s@[j]),
        decreases n - k,
    {
        let c = s.get_char(k);
        if !char_is_whitespace(c) {
            return k;
        }
        k += 1;
    }
    n
}

/// The group already holding this fingerprint, if any.
fn find_group(groups: &Vec<Group>, fingerprint: &String) -> (r: Option<usize>)
    ensures
        match r {
            Some(i) => i < groups@.len() && groups@[i as int].fingerprint@ == fingerprint@
                && forall|j: int| 0 <= j < i ==> groups@[j].fingerprint@ != fingerprint@,
            None => forall|j: int|
                0 <= j < groups@.len() ==> groups@[j].fingerprint@ != fingerprint@,
        },
{
    let mut i: usize = 0;
    while i < groups.len()
        invariant
            i <= groups@.len(),
            forall|j: int| 0 <= j < i ==> groups@[j].fingerprint@ != fingerprint@,
        decreases groups@.len() - i,
    {
        if groups[i].fingerprint.eq(fingerprint) {
            return Some(i);
        }
        i += 1;
    }
    None
}

/// Parsing stops at the first separator: the fingerprint is everything
/// before it, the raw name everything after it.
proof fn lemma_parse_found(s: Seq<char>, i: int)
    requires
        0 <= i < s.len(),
        is_sep(s[i]),
        forall|j: int| 0 <= j < i ==> !is_sep(s[j]),
    ensures
        parse_line(s) == Some((s.subrange(0, i), s.subrange(i + 1, s.len() as int))),
    decreases i,
{
    if i == 0 {
        assert(s.drop_first() =~= s.subrange(1, s.len() as int));
        assert(Seq::<char>::empty() =~= s.subrange(0, 0));
    } else {
        lemma_parse_found(s.drop_first(), i - 1);
        assert(seq![s[0]] + s.drop_first().subrange(0, i - 1) =~= s.subrange(0, i));
        assert(s.drop_first().subrange(i, s.len() - 1) =~= s.subrange(i + 1, s.len() as int));
    }
}

/// A line without a separator parses to nothing.
proof fn lemma_parse_none(s: Seq<char>)
    requires
        forall|j: int| 0 <= j < s.len() ==> !is_sep(s[j]),
    ensures
        parse_line(s) is None,
    decreases s.len(),
{
    if s.len() > 0 {
        lemma_parse_none(s.drop_first());
    }
}

/// Trimming removes exactly the leading whitespace.
proof fn lemma_trim(s: Seq<char>, k: int)
    requires
        0 <= k <= s.len(),
        forall|j: int| 0 <= j < k ==> unicode_whitespace(s[j]),
        k < s.len() ==> !unicode_whitespace(s[k]),
    ensures
        trim_leading(s) == s.subrange(k, s.len() as int),
    decreases k,
{
    if k == 0 {
        assert(s =~= s.subrange(0, s.len() as int));
    } else {
        lemma_trim(s.drop_first(), k - 1);
        assert(s.drop_first().subrange(k - 1, s.len() - 1) =~= s.subrange(k, s.len() as int));
    }
}

/// Filing under a fingerprint already present appends to that group.
proof fn lemma_file_found(gs: Seq<(Seq<char>, Seq<Seq<char>>)>, g: Seq<char>, n: Seq<char>, i: int)
    requires
        0 <= i < gs.len(),
        gs[i].0 == g,
        forall|j: int| 0 <= j < i ==> gs[j].0 != g,
    ensures
        file_name(gs, g, n) =~= gs.update(i, (g, gs[i].1.push(n))),
    decreases i,
{
    if i == 0 {
        assert(seq![(g, gs[0].1.push(n))] + gs.drop_first() =~= gs.update(
            0,
            (g, gs[0].1.push(n)),
        ));
    } else {
        lemma_file_found(gs.drop_first(), g, n, i - 1);
        assert(seq![gs[0]] + gs.drop_first().update(i - 1, (g, gs[i].1.push(n))) =~= gs.update(
            i,
            (g, gs[i].1.push(n)),
        ));
    }
}

/// Filing under a new fingerprint opens a group at the end.
proof fn lemma_file_missing(gs: Seq<(Seq<char>, Seq<Seq<char>>)>, g: Seq<char>, n: Seq<char>)
    requires
        forall|j: int| 0 <= j < gs.len() ==> gs[j].0 != g,
    ensures
        file_name(gs, g, n) =~= gs.push((g, seq![n])),
    decreases gs.len(),
{
    if gs.len() > 0 {
        lemma_file_missing(gs.drop_first(), g, n);
        assert(seq![gs[0]] + gs.drop_first().push((g, seq![n])) =~= gs.push((g, seq![n])));
    }
}

/// Fold the lines into groups of names keyed by fingerprint.
pub fn assemble_map(lines: Vec<String>) -> (r: Vec<Group>)
    ensures
        groups_view(r@) == assemble_spec(lines.deep_view()),
{
    let mut groups: Vec<Group> = Vec::new();
    let mut li: usize = 0;
    while li < lines.len()
        invariant
            li <= lines@.len(),
            lines.deep_view().len() == lines@.len(),
            groups_view(groups@) == assemble_spec(lines.deep_view().take(li as int)),
        decreases lines@.len() - li,
    {
        let line = &lines[li];
        let s: &str = line.as_str();
        let ghost lv = lines.deep_view();
        proof {
            assert(lv[li as int] == lines@[li as int]@);
            assert(lv.take(li as int + 1).drop_last() =~= lv.take(li as int));
            assert(lv.take(li as int + 1).last() == s@);
        }
        match find_sep(s) {
            None => {
                proof {
                    lemma_parse_none(s@);
                }
            },
            Some(i) => {
                let n = s.unicode_len();
                let group = s.substring_char(0, i).to_owned();
                let rest = s.substring_char(i + 1, n);
                // Trailing whitespace must be kept in name
                let k = skip_whitespace(rest);
                let rlen = rest.unicode_len();
                let name = rest.substring_char(k, rlen).to_owned();
                proof {
                    lemma_parse_found(s@, i as int);
                    lemma_trim(rest@, k as int);
                    assert(rest@.subrange(k as int, rest@.len() as int) == name@);
                }
                let ghost before = groups_view(groups@);
                match find_group(&groups, &group) {
                    Some(idx) => {
                        let mut entry = groups.remove(idx);
                        entry.names.push(name);
                        groups.insert(idx, entry);
                        proof {
                            lemma_file_found(before, group@, name@, idx as int);
                            assert(groups_view(groups@) =~~= before.update(
                                idx as int,
                                (group@, before[idx as int].1.push(name@)),
                            ));
                        }
                    },
                    None => {
                        let mut names: Vec<String> = Vec::new();
                        names.push(name);
                        groups.push(Group { fingerprint: group, names });
                        proof {
                            lemma_file_missing(before, group@, name@);
                            assert(groups_view(groups@) =~~= before.push((group@, seq![name@])));
                        }
                    },
                }
            },
        }
        li += 1;
        proof {
            assert(groups_view(groups@) =~~= assemble_spec(lv.take(li as int)));
        }
    }
    proof {
        assert(lines.deep_view().take(lines@.len() as int) =~= lines.deep_view());
    }
    groups
}

} // verus!
