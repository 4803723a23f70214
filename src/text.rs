//! Text helpers shared by the rule parser and the presentation layer.

use vstd::prelude::*;

verus! {

/// What `str::to_lowercase` returns for a given sequence of characters.
pub uninterp spec fn lower_of(s: Seq<char>) -> Seq<char>;

/// What `str::trim` returns for a given sequence of characters.
pub uninterp spec fn trim_of(s: Seq<char>) -> Seq<char>;

/// What `str::replace` returns: every occurrence of `from` in `s` replaced
/// by `to`.
pub uninterp spec fn replace_of(s: Seq<char>, from: Seq<char>, to: Seq<char>) -> Seq<char>;

/// Relies on `str::to_lowercase`: the lowercase mapping of each character,
/// a function of the characters alone.
#[verifier::external_body]
pub(crate) fn lowercase(s: &str) -> (r: String)
    ensures
        r@ == lower_of(s@),
{
    s.to_lowercase()
}

/// Relies on `str::trim`: leading and trailing white space removed, a
/// function of the characters alone.
#[verifier::external_body]
pub(crate) fn trimmed(s: &str) -> (r: String)
    ensures
        r@ == trim_of(s@),
{
    s.trim().to_string()
}

/// Relies on `str::replace`: every non-overlapping occurrence of `from`,
/// from left to right, replaced by `to`; a function of the three texts.
#[verifier::external_body]
pub(crate) fn replace_all(s: &str, from: &str, to: &str) -> (r: String)
    ensures
        r@ == replace_of(s@, from@, to@),
{
    s.replace(from, to)
}

/// Number of occurrences of `c` in `s`.
pub open spec fn count_char(s: Seq<char>, c: char) -> nat
    decreases s.len(),
{
    if s.len() == 0 {
        0
    } else {
        count_char(s.drop_last(), c) + if s.last() == c { 1nat } else { 0nat }
    }
}

/// The pieces of `s` between occurrences of `sep`, as `str::split` yields
/// them: always at least one piece, possibly empty ones.
pub open spec fn split_spec(s: Seq<char>, sep: char) -> Seq<Seq<char>>
    decreases s.len(),
{
    if s.len() == 0 {
        seq![Seq::<char>::empty()]
    } else {
        let pre = split_spec(s.drop_last(), sep);
        if s.last() == sep {
            pre.push(Seq::<char>::empty())
        } else {
            pre.update(pre.len() - 1, pre.last().push(s.last()))
        }
    }
}

/// The views of a vector of strings.
pub open spec fn views(v: Seq<String>) -> Seq<Seq<char>> {
    v.map_values(|x: String| x@)
}

pub proof fn lemma_split_nonempty(s: Seq<char>, sep: char)
    ensures
        split_spec(s, sep).len() >= 1,
    decreases s.len(),
{
    if s.len() > 0 {
        lemma_split_nonempty(s.drop_last(), sep);
    }
}

/// Counts the occurrences of `c` in `s`.
pub fn count_chars(s: &str, c: char) -> (r: usize)
    ensures
        r == count_char(s@, c),
{
    let n = s.unicode_len();
    let mut i: usize = 0;
    let mut k: usize = 0;
    while i < n
        invariant
            n == s@.len(),
            i <= n,
            k == count_char(s@.subrange(0, i as int), c),
            k <= i,
        decreases n - i,
    {
        assert(s@.subrange(0, i + 1).drop_last() == s@.subrange(0, i as int));
        if s.get_char(i) == c {
            k = k + 1;
        }
        i = i + 1;
    }
    assert(s@.subrange(0, n as int) == s@);
    k
}

/// Whether `s` and `t` hold the same characters.
pub fn same_text(s: &str, t: &str) -> (r: bool)
    ensures
        r == (s@ == t@),
{
    let n = s.unicode_len();
    if n != t.unicode_len() {
        return false;
    }
    let mut i: usize = 0;
    while i < n
        invariant
            n == s@.len(),
            n == t@.len(),
            i <= n,
            s@.subrange(0, i as int) == t@.subrange(0, i as int),
        decreases n - i,
    {
        if s.get_char(i) != t.get_char(i) {
            assert(s@[i as int] != t@[i as int]);
            return false;
        }
        assert(s@.subrange(0, i + 1) == s@.subrange(0, i as int).push(s@[i as int]));
        assert(t@.subrange(0, i + 1) == t@.subrange(0, i as int).push(t@[i as int]));
        i = i + 1;
    }
    assert(s@.subrange(0, n as int) == s@);
    assert(t@.subrange(0, n as int) == t@);
    true
}

/// Splits `s` at every occurrence of `sep`.
pub fn split_on(s: &str, sep: char) -> (r: Vec<String>)
    ensures
        views(r@) == split_spec(s@, sep),
{
    let n = s.unicode_len();
    let mut out: Vec<String> = Vec::new();
    let mut start: usize = 0;
    let mut i: usize = 0;
    assert(views(out@) =~= Seq::<Seq<char>>::empty());
    assert(s@.subrange(0, 0) =~= Seq::<char>::empty());
    assert(views(out@).push(s@.subrange(0, 0)) =~= split_spec(s@.subrange(0, 0), sep));
    while i < n
        invariant
            n == s@.len(),
            start <= i <= n,
            views(out@).push(s@.subrange(start as int, i as int)) == split_spec(
                s@.subrange(0, i as int),
                sep,
            ),
        decreases n - i,
    {
        let ghost pre = s@.subrange(0, i as int);
        let ghost cur = s@.subrange(0, i + 1);
        assert(cur.drop_last() =~= pre);
        assert(cur.last() == s@[i as int]);
        proof {
            lemma_split_nonempty(pre, sep);
        }
        if s.get_char(i) == sep {
            let piece = String::from_str(s.substring_char(start, i));
            let ghost before = views(out@);
            out.push(piece);
            assert(views(out@) =~= before.push(piece@));
            assert(piece@ == s@.subrange(start as int, i as int));
            assert(s@.subrange(i + 1, i + 1) =~= Seq::<char>::empty());
            assert(split_spec(cur, sep) == split_spec(pre, sep).push(Seq::<char>::empty()));
            assert(views(out@).push(s@.subrange(i + 1, i + 1)) =~= split_spec(cur, sep));
            start = i + 1;
        } else {
            assert(s@.subrange(start as int, i + 1) == s@.subrange(start as int, i as int).push(
                s@[i as int],
            ));
            assert(views(out@).push(s@.subrange(start as int, i + 1)) =~= split_spec(cur, sep));
        }
        i = i + 1;
    }
    assert(s@.subrange(0, n as int) == s@);
    let last = String::from_str(s.substring_char(start, n));
    let ghost before = views(out@);
    out.push(last);
    assert(views(out@) =~= before.push(last@));
    out
}

/// `pat` occurs in `s` at position `i`.
pub open spec fn occurs_at(s: Seq<char>, pat: Seq<char>, i: int) -> bool {
    0 <= i && i + pat.len() <= s.len() && s.subrange(i, i + pat.len()) == pat
}

/// `pat` occurs somewhere in `s`.
pub open spec fn contains_spec(s: Seq<char>, pat: Seq<char>) -> bool {
    exists|i: int| occurs_at(s, pat, i)
}

/// Whether `pat` occurs in `s`.
pub fn contains_text(s: &str, pat: &str) -> (r: bool)
    ensures
        r == contains_spec(s@, pat@),
{
    let n = s.unicode_len();
    let m = pat.unicode_len();
    if m > n {
        assert forall|i: int| !occurs_at(s@, pat@, i) by {}
        return false;
    }
    if m == 0 {
        assert(s@.subrange(0, 0) =~= pat@);
        assert(occurs_at(s@, pat@, 0));
        return true;
    }
    let mut i: usize = 0;
    while i <= n - m
        invariant
            n == s@.len(),
            m == pat@.len(),
            1 <= m <= n,
            i <= n - m + 1,
            forall|j: int| 0 <= j < i ==> !occurs_at(s@, pat@, j),
        decreases n - m + 1 - i,
    {
        if same_text(s.substring_char(i, i + m), pat) {
            assert(occurs_at(s@, pat@, i as int));
            return true;
        }
        i = i + 1;
    }
    assert forall|j: int| !occurs_at(s@, pat@, j) by {
        if 0 <= j < i {
        }
    }
    false
}

/// The text cut in the middle to at most `max_len` characters, with `...`
/// in place of what was cut.
pub open spec fn truncated(s: Seq<char>, max_len: nat) -> Seq<char> {
    if s.len() <= max_len {
        s
    } else {
        let part = ((max_len - 3) / 2) as int;
        s.subrange(0, part) + seq!['.', '.', '.'] + s.subrange(s.len() - part, s.len() as int)
    }
}

/// Shortens a long text by cutting out its middle.
pub fn truncate_middle(text: &str, max_len: usize) -> (r: String)
    requires
        max_len >= 3 || text@.len() <= max_len,
    ensures
        r@ == truncated(text@, max_len as nat),
{
    let n = text.unicode_len();
    if n <= max_len {
        return String::from_str(text);
    }
    let part = (max_len - 3) / 2;
    let mut r = String::from_str(text.substring_char(0, part));
    proof {
        reveal_strlit("...");
    }
    r.append("...");
    r.append(text.substring_char(n - part, n));
    assert("..."@ =~= seq!['.', '.', '.']);
    r
}

/// The text without its leading `v`s.
pub open spec fn without_v(s: Seq<char>) -> Seq<char>
    decreases s.len(),
{
    if s.len() > 0 && s[0] == 'v' {
        without_v(s.drop_first())
    } else {
        s
    }
}

proof fn lemma_without_v_from(s: Seq<char>, i: int)
    requires
        0 <= i <= s.len(),
        forall|k: int| 0 <= k < i ==> s[k] == 'v',
    ensures
        without_v(s) == without_v(s.subrange(i, s.len() as int)),
    decreases i,
{
    if i > 0 {
        let t = s.drop_first();
        assert forall|k: int| 0 <= k < i - 1 implies t[k] == 'v' by {
            assert(t[k] == s[k + 1]);
        }
        lemma_without_v_from(t, i - 1);
        assert(t.subrange(i - 1, t.len() as int) =~= s.subrange(i, s.len() as int));
    } else {
        assert(s.subrange(0, s.len() as int) =~= s);
    }
}

/// The version number of a release tag such as `v1.2.0`.
pub fn release_version(tag: &str) -> (r: String)
    ensures
        r@ == without_v(tag@),
{
    let n = tag.unicode_len();
    let mut i: usize = 0;
    while i < n && tag.get_char(i) == 'v'
        invariant
            n == tag@.len(),
            i <= n,
            forall|k: int| 0 <= k < i ==> tag@[k] == 'v',
        decreases n - i,
    {
        i = i + 1;
    }
    proof {
        lemma_without_v_from(tag@, i as int);
        let rest = tag@.subrange(i as int, n as int);
        if rest.len() > 0 {
            assert(rest[0] == tag@[i as int]);
        }
    }
    String::from_str(tag.substring_char(i, n))
}

/// The custom links of a `name|url,name|url` list: each entry with exactly
/// two non-empty parts, in order; other entries are dropped.
pub open spec fn links_spec(entries: Seq<Seq<char>>) -> Seq<(Seq<char>, Seq<char>)>
    decreases entries.len(),
{
    if entries.len() == 0 {
        Seq::empty()
    } else {
        let pre = links_spec(entries.drop_last());
        let parts = split_spec(entries.last(), '|');
        if parts.len() == 2 && parts[0].len() > 0 && parts[1].len() > 0 {
            pre.push((parts[0], parts[1]))
        } else {
            pre
        }
    }
}

/// Reads a `name|url,name|url` list of custom links.
pub fn parse_custom_links(s: &str) -> (r: Vec<(String, String)>)
    ensures
        r@.map_values(|l: (String, String)| (l.0@, l.1@)) == links_spec(split_spec(s@, ',')),
{
    let entries = split_on(s, ',');
    let ghost es = split_spec(s@, ',');
    let mut out: Vec<(String, String)> = Vec::new();
    let mut i: usize = 0;
    while i < entries.len()
        invariant
            i <= entries@.len(),
            views(entries@) == es,
            out@.map_values(|l: (String, String)| (l.0@, l.1@)) == links_spec(es.subrange(0, i as int)),
        decreases entries@.len() - i,
    {
        assert(es.subrange(0, i + 1).drop_last() =~= es.subrange(0, i as int));
        assert(es[i as int] == entries@[i as int]@);
        let parts = split_on(entries[i].as_str(), '|');
        let ghost before = out@.map_values(|l: (String, String)| (l.0@, l.1@));
        if parts.len() == 2 && parts[0].unicode_len() > 0 && parts[1].unicode_len() > 0 {
            assert(views(parts@)[0] == parts@[0]@);
            assert(views(parts@)[1] == parts@[1]@);
            let a = String::from_str(parts[0].as_str());
            let b = String::from_str(parts[1].as_str());
            out.push((a, b));
            assert(out@.map_values(|l: (String, String)| (l.0@, l.1@)) =~= before.push((a@, b@)));
        }
        i = i + 1;
    }
    assert(es.subrange(0, entries@.len() as int) =~= es);
    out
}

/// Whether a setting reads as on: `true` in any case, or `1`.
pub open spec fn flag_on(lowered: Seq<char>) -> bool {
    lowered == seq!['t', 'r', 'u', 'e'] || lowered == seq!['1']
}

/// Whether a lowercased setting reads as on.
pub fn is_flag_on(lowered: &str) -> (r: bool)
    ensures
        r == flag_on(lowered@),
{
    proof {
        reveal_strlit("true");
        reveal_strlit("1");
    }
    assert("true"@ =~= seq!['t', 'r', 'u', 'e']);
    assert("1"@ =~= seq!['1']);
    same_text(lowered, "true") || same_text(lowered, "1")
}

/// Whether a setting reads as on, in any case.
pub fn env_bool(value: &str) -> (r: bool)
    ensures
        r == flag_on(lower_of(value@)),
{
    let l = lowercase(value);
    is_flag_on(l.as_str())
}

/// Whether a request token is accepted: a token must be configured, and
/// the request must carry exactly it.
pub fn token_accepted(expected: &str, given: &str) -> (r: bool)
    ensures
        r == (expected@.len() > 0 && given@ == expected@),
{
    expected.unicode_len() > 0 && same_text(given, expected)
}

/// The label of a popular path once the repository prefix is taken out:
/// the root when nothing is left.
pub open spec fn label_of(stripped: Seq<char>) -> Seq<char> {
    if stripped.len() == 0 { seq!['/'] } else { stripped }
}

/// The label of a path from which the repository prefix was taken out.
pub fn path_label_of(stripped: &str) -> (r: String)
    ensures
        r@ == label_of(stripped@),
{
    if stripped.unicode_len() == 0 {
        proof {
            reveal_strlit("/");
        }
        assert("/"@ =~= seq!['/']);
        String::from_str("/")
    } else {
        String::from_str(stripped)
    }
}

/// The label of a popular path of repository `repo` (`owner/name`): the
/// path with every `/owner/name` taken out, or the root.
pub fn path_label(path: &str, repo: &str) -> (r: String)
    ensures
        r@ == label_of(replace_of(path@, seq!['/'] + repo@, Seq::<char>::empty())),
{
    let mut prefix = String::from_str("/");
    proof {
        reveal_strlit("/");
        reveal_strlit("");
    }
    prefix.append(repo);
    assert(prefix@ =~= seq!['/'] + repo@);
    assert(""@ =~= Seq::<char>::empty());
    let stripped = replace_all(path, prefix.as_str(), "");
    path_label_of(stripped.as_str())
}

} // verus!
