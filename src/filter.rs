//! The repository inclusion filter, built once from a comma-separated rule
//! string such as `"*,!fork,!owner/name,other/*"`.

use vstd::prelude::*;
use crate::text::{
    count_char, count_chars, lower_of, lowercase, same_text, split_on, split_spec, trim_of,
    trimmed, views,
};

verus! {

/// The rules of a filter as mathematical values.
pub struct RuleSet {
    pub accept: Seq<Seq<char>>,
    pub reject: Seq<Seq<char>>,
    pub forks: bool,
    pub archs: bool,
    pub all: bool,
}

pub open spec fn star_rule() -> Seq<char> {
    seq!['*']
}

pub open spec fn fork_rule() -> Seq<char> {
    seq!['!', 'f', 'o', 'r', 'k']
}

pub open spec fn archived_rule() -> Seq<char> {
    seq!['!', 'a', 'r', 'c', 'h', 'i', 'v', 'e', 'd']
}

/// A rule that names repositories: `owner/name` or `owner/*`, possibly
/// negated with a leading `!`.
pub open spec fn is_name_rule(t: Seq<char>) -> bool {
    &&& t.len() > 0
    &&& t != star_rule()
    &&& t != fork_rule()
    &&& t != archived_rule()
    &&& count_char(t, '/') == 1
}

pub open spec fn is_exclude_rule(t: Seq<char>) -> bool {
    is_name_rule(t) && t[0] == '!'
}

pub open spec fn is_include_rule(t: Seq<char>) -> bool {
    is_name_rule(t) && t[0] != '!'
}

/// The effect of one trimmed, lowercased rule on the rules read so far;
/// anything of another shape is dropped.
pub open spec fn add_rule(r: RuleSet, t: Seq<char>) -> RuleSet {
    if t == star_rule() {
        RuleSet { all: true, ..r }
    } else if t == fork_rule() {
        RuleSet { forks: true, ..r }
    } else if t == archived_rule() {
        RuleSet { archs: true, ..r }
    } else if is_exclude_rule(t) {
        RuleSet { reject: r.reject.push(t.drop_first()), ..r }
    } else if is_include_rule(t) {
        RuleSet { accept: r.accept.push(t), ..r }
    } else {
        r
    }
}

pub open spec fn parse_rules(ts: Seq<Seq<char>>) -> RuleSet
    decreases ts.len(),
{
    if ts.len() == 0 {
        RuleSet {
            accept: Seq::empty(),
            reject: Seq::empty(),
            forks: false,
            archs: false,
            all: false,
        }
    } else {
        add_rule(parse_rules(ts.drop_last()), ts.last())
    }
}

/// The filter that a list of trimmed, lowercased rules describes: with no
/// name rule at all, every repository is taken by default.
pub open spec fn filter_of(ts: Seq<Seq<char>>) -> RuleSet {
    let p = parse_rules(ts);
    RuleSet { all: p.all || (p.accept.len() == 0 && p.reject.len() == 0), ..p }
}

/// The rule pieces of a raw rule string, each trimmed.
pub open spec fn rule_pieces(rules: Seq<char>) -> Seq<Seq<char>> {
    split_spec(lower_of(trim_of(rules)), ',').map_values(|p: Seq<char>| trim_of(p))
}

/// A repository name of the form `owner/name`, both parts non-empty.
pub open spec fn valid_name(r: Seq<char>) -> bool {
    &&& r.len() > 0
    &&& count_char(r, '/') == 1
    &&& r[0] != '/'
    &&& r.last() != '/'
}

/// `owner/*` matches every repository under `owner`.
pub open spec fn wildcard_match(rule: Seq<char>, r: Seq<char>) -> bool {
    let p = rule.len() - 2;
    &&& rule.len() >= 2
    &&& rule[p] == '/'
    &&& rule.last() == '*'
    &&& p < r.len()
    &&& r.subrange(0, p) == rule.subrange(0, p)
    &&& r[p] == '/'
}

/// A rule fires on an exact name, or as a wildcard unless the repository
/// is a fork or archived one that the filter excludes.
pub open spec fn rule_fires(rule: Seq<char>, r: Seq<char>, flagged: bool) -> bool {
    rule == r || (!flagged && wildcard_match(rule, r))
}

pub open spec fn any_fires(rules: Seq<Seq<char>>, r: Seq<char>, flagged: bool) -> bool {
    exists|i: int| 0 <= i < rules.len() && rule_fires(#[trigger] rules[i], r, flagged)
}

impl RuleSet {
    pub open spec fn flagged(self, fork: bool, arch: bool) -> bool {
        (self.forks && fork) || (self.archs && arch)
    }

    /// Whether a normalized repository name takes part: reject rules are
    /// consulted before accept rules, then the fork and archived
    /// exclusions, then the default.
    pub open spec fn decides(self, r: Seq<char>, fork: bool, arch: bool) -> bool {
        let fl = self.flagged(fork, arch);
        if !valid_name(r) {
            false
        } else if any_fires(self.reject, r, fl) {
            false
        } else if any_fires(self.accept, r, fl) {
            true
        } else if fl {
            false
        } else {
            self.all
        }
    }
}

#[derive(Debug)]
pub struct GhsFilter {
    pub include_repos: Vec<String>,
    pub exclude_repos: Vec<String>,
    pub exclude_forks: bool,
    pub exclude_archs: bool,
    pub default_all: bool,
}

impl View for GhsFilter {
    type V = RuleSet;

    open spec fn view(&self) -> RuleSet {
        RuleSet {
            accept: views(self.include_repos@),
            reject: views(self.exclude_repos@),
            forks: self.exclude_forks,
            archs: self.exclude_archs,
            all: self.default_all,
        }
    }
}

fn fires(rule: &str, r: &str, flagged: bool) -> (b: bool)
    ensures
        b == rule_fires(rule@, r@, flagged),
{
    if same_text(rule, r) {
        return true;
    }
    if flagged {
        return false;
    }
    let m = rule.unicode_len();
    let n = r.unicode_len();
    if m < 2 {
        return false;
    }
    let p = m - 2;
    if rule.get_char(p) != '/' || rule.get_char(m - 1) != '*' || p >= n {
        return false;
    }
    same_text(r.substring_char(0, p), rule.substring_char(0, p)) && r.get_char(p) == '/'
}

fn any_rule_fires(rules: &Vec<String>, r: &str, flagged: bool) -> (b: bool)
    ensures
        b == any_fires(views(rules@), r@, flagged),
{
    let mut i: usize = 0;
    while i < rules.len()
        invariant
            i <= rules@.len(),
            forall|k: int| 0 <= k < i ==> !rule_fires(#[trigger] views(rules@)[k], r@, flagged),
        decreases rules@.len() - i,
    {
        if fires(rules[i].as_str(), r, flagged) {
            assert(rule_fires(views(rules@)[i as int], r@, flagged));
            return true;
        }
        i = i + 1;
    }
    false
}

impl GhsFilter {
    /// Builds a filter from rules that are already trimmed and lowercased.
    pub fn from_rules(rules: &Vec<String>) -> (f: GhsFilter)
        ensures
            f@ == filter_of(views(rules@)),
    {
        let mut f = GhsFilter {
            include_repos: Vec::new(),
            exclude_repos: Vec::new(),
            exclude_forks: false,
            exclude_archs: false,
            default_all: false,
        };
        let ghost ts = views(rules@);
        assert(views(f.include_repos@) =~= Seq::<Seq<char>>::empty());
        assert(views(f.exclude_repos@) =~= Seq::<Seq<char>>::empty());
        assert(ts.subrange(0, 0).len() == 0);
        assert(f@ =~= parse_rules(ts.subrange(0, 0)));
        let mut i: usize = 0;
        while i < rules.len()
            invariant
                i <= rules@.len(),
                ts == views(rules@),
                f@ == parse_rules(ts.subrange(0, i as int)),
            decreases rules@.len() - i,
        {
            let t = rules[i].as_str();
            assert(ts.subrange(0, i + 1).drop_last() =~= ts.subrange(0, i as int));
            assert(ts.subrange(0, i + 1).last() == t@);
            let ghost before = f@;
            if same_text(t, "*") {
                proof {
                    reveal_strlit("*");
                }
                assert("*"@ =~= star_rule());
                f.default_all = true;
            } else if same_text(t, "!fork") {
                proof {
                    reveal_strlit("!fork");
                }
                assert("!fork"@ =~= fork_rule());
                f.exclude_forks = true;
            } else if same_text(t, "!archived") {
                proof {
                    reveal_strlit("!archived");
                }
                assert("!archived"@ =~= archived_rule());
                f.exclude_archs = true;
            } else {
                proof {
                    reveal_strlit("*");
                    reveal_strlit("!fork");
                    reveal_strlit("!archived");
                    assert("*"@ =~= star_rule());
                    assert("!fork"@ =~= fork_rule());
                    assert("!archived"@ =~= archived_rule());
                }
                let n = t.unicode_len();
                if n > 0 && count_chars(t, '/') == 1 {
                    if t.get_char(0) == '!' {
                        let name = String::from_str(t.substring_char(1, n));
                        assert(name@ =~= t@.drop_first());
                        f.exclude_repos.push(name);
                        assert(f@.reject =~= before.reject.push(name@));
                    } else {
                        let name = String::from_str(t);
                        f.include_repos.push(name);
                        assert(f@.accept =~= before.accept.push(name@));
                    }
                }
            }
            assert(f@ =~= add_rule(before, t@));
            i = i + 1;
        }
        assert(ts.subrange(0, rules@.len() as int) =~= ts);
        if f.include_repos.len() == 0 && f.exclude_repos.len() == 0 {
            f.default_all = true;
        }
        f
    }

    /// Builds a filter from a comma-separated rule string. Each rule is
    /// trimmed and lowercased; rules of an unknown shape are dropped.
    pub fn new(rules: &str) -> (f: GhsFilter)
        ensures
            f@ == filter_of(rule_pieces(rules@)),
    {
        let t = trimmed(rules);
        let l = lowercase(t.as_str());
        let pieces = split_on(l.as_str(), ',');
        let ghost sp = split_spec(lower_of(trim_of(rules@)), ',');
        let mut ts: Vec<String> = Vec::new();
        let mut i: usize = 0;
        while i < pieces.len()
            invariant
                i <= pieces@.len(),
                views(pieces@) == sp,
                views(ts@) =~= sp.subrange(0, i as int).map_values(|p: Seq<char>| trim_of(p)),
            decreases pieces@.len() - i,
        {
            let piece = trimmed(pieces[i].as_str());
            assert(pieces@[i as int]@ == sp[i as int]);
            let ghost before = views(ts@);
            ts.push(piece);
            assert(views(ts@) =~= before.push(piece@));
            assert(sp.subrange(0, i + 1).map_values(|p: Seq<char>| trim_of(p)) =~= sp.subrange(
                0,
                i as int,
            ).map_values(|p: Seq<char>| trim_of(p)).push(trim_of(sp[i as int])));
            i = i + 1;
        }
        assert(sp.subrange(0, pieces@.len() as int) =~= sp);
        Self::from_rules(&ts)
    }

    /// Decides on a name that is already trimmed and lowercased.
    pub fn is_included_normalized(&self, repo: &str, is_fork: bool, is_arch: bool) -> (b: bool)
        ensures
            b == self@.decides(repo@, is_fork, is_arch),
    {
        let n = repo.unicode_len();
        if n == 0 || count_chars(repo, '/') != 1 || repo.get_char(0) == '/' || repo.get_char(
            n - 1,
        ) == '/' {
            return false;
        }
        let flagged = (self.exclude_forks && is_fork) || (self.exclude_archs && is_arch);
        if any_rule_fires(&self.exclude_repos, repo, flagged) {
            return false;
        }
        if any_rule_fires(&self.include_repos, repo, flagged) {
            return true;
        }
        if flagged {
            return false;
        }
        self.default_all
    }

    /// Whether a repository takes part; the name is trimmed and lowercased
    /// first.
    pub fn is_included(&self, repo: &str, is_fork: bool, is_arch: bool) -> (b: bool)
        ensures
            b == self@.decides(lower_of(trim_of(repo@)), is_fork, is_arch),
    {
        let t = trimmed(repo);
        let l = lowercase(t.as_str());
        self.is_included_normalized(l.as_str(), is_fork, is_arch)
    }
}

/// Some rule in `ts` accepts the name `x`.
pub open spec fn accepted_by(ts: Seq<Seq<char>>, x: Seq<char>) -> bool {
    exists|i: int| 0 <= i < ts.len() && is_include_rule(#[trigger] ts[i]) && ts[i] == x
}

/// Some rule in `ts` rejects the name `x`.
pub open spec fn rejected_by(ts: Seq<Seq<char>>, x: Seq<char>) -> bool {
    exists|i: int| 0 <= i < ts.len() && is_exclude_rule(#[trigger] ts[i]) && ts[i].drop_first() == x
}

/// What the parsed rules hold, in terms of the rules read.
pub proof fn lemma_parse_members(ts: Seq<Seq<char>>)
    ensures
        forall|x: Seq<char>| #[trigger] parse_rules(ts).accept.contains(x) <==> accepted_by(ts, x),
        forall|x: Seq<char>| #[trigger] parse_rules(ts).reject.contains(x) <==> rejected_by(ts, x),
        parse_rules(ts).forks <==> ts.contains(fork_rule()),
        parse_rules(ts).archs <==> ts.contains(archived_rule()),
        parse_rules(ts).all <==> ts.contains(star_rule()),
    decreases ts.len(),
{
    if ts.len() > 0 {
        let pre = ts.drop_last();
        let t = ts.last();
        let n = ts.len() - 1;
        lemma_parse_members(pre);
        let p = parse_rules(pre);
        let q = parse_rules(ts);
        assert(q == add_rule(p, t));
        assert(ts[n] == t);
        assert forall|x: Seq<char>| #[trigger] q.accept.contains(x) <==> accepted_by(ts, x) by {
            if q.accept.contains(x) {
                if p.accept.contains(x) {
                    let i = choose|i: int| 0 <= i < pre.len() && is_include_rule(#[trigger] pre[i]) && pre[i] == x;
                    assert(ts[i] == pre[i]);
                } else {
                    assert(is_include_rule(t) && t == x);
                }
            }
            if accepted_by(ts, x) {
                let i = choose|i: int| 0 <= i < ts.len() && is_include_rule(#[trigger] ts[i]) && ts[i] == x;
                if i < n {
                    assert(pre[i] == ts[i]);
                    assert(accepted_by(pre, x));
                    assert(p.accept.contains(x));
                    let j = choose|j: int| 0 <= j < p.accept.len() && p.accept[j] == x;
                    assert(q.accept[j] == x);
                } else {
                    assert(q.accept.last() == x);
                }
            }
        }
        assert forall|x: Seq<char>| #[trigger] q.reject.contains(x) <==> rejected_by(ts, x) by {
            if q.reject.contains(x) {
                if p.reject.contains(x) {
                    let i = choose|i: int| 0 <= i < pre.len() && is_exclude_rule(#[trigger] pre[i]) && pre[i].drop_first() == x;
                    assert(ts[i] == pre[i]);
                } else {
                    assert(is_exclude_rule(t) && t.drop_first() == x);
                }
            }
            if rejected_by(ts, x) {
                let i = choose|i: int| 0 <= i < ts.len() && is_exclude_rule(#[trigger] ts[i]) && ts[i].drop_first() == x;
                if i < n {
                    assert(pre[i] == ts[i]);
                    assert(rejected_by(pre, x));
                    assert(p.reject.contains(x));
                    let j = choose|j: int| 0 <= j < p.reject.len() && p.reject[j] == x;
                    assert(q.reject[j] == x);
                } else {
                    assert(q.reject.last() == x);
                }
            }
        }
        assert(ts.contains(fork_rule()) <==> (pre.contains(fork_rule()) || t == fork_rule())) by {
            if ts.contains(fork_rule()) {
                let i = choose|i: int| 0 <= i < ts.len() && ts[i] == fork_rule();
                if i < n {
                    assert(pre[i] == ts[i]);
                }
            }
            if pre.contains(fork_rule()) {
                let i = choose|i: int| 0 <= i < pre.len() && pre[i] == fork_rule();
                assert(ts[i] == pre[i]);
            }
        }
        assert(ts.contains(archived_rule()) <==> (pre.contains(archived_rule()) || t
            == archived_rule())) by {
            if ts.contains(archived_rule()) {
                let i = choose|i: int| 0 <= i < ts.len() && ts[i] == archived_rule();
                if i < n {
                    assert(pre[i] == ts[i]);
                }
            }
            if pre.contains(archived_rule()) {
                let i = choose|i: int| 0 <= i < pre.len() && pre[i] == archived_rule();
                assert(ts[i] == pre[i]);
            }
        }
        assert(ts.contains(star_rule()) <==> (pre.contains(star_rule()) || t == star_rule())) by {
            if ts.contains(star_rule()) {
                let i = choose|i: int| 0 <= i < ts.len() && ts[i] == star_rule();
                if i < n {
                    assert(pre[i] == ts[i]);
                }
            }
            if pre.contains(star_rule()) {
                let i = choose|i: int| 0 <= i < pre.len() && pre[i] == star_rule();
                assert(ts[i] == pre[i]);
            }
        }
    }
}

proof fn lemma_any_fires_members(a: Seq<Seq<char>>, b: Seq<Seq<char>>, r: Seq<char>, fl: bool)
    requires
        forall|x: Seq<char>| a.contains(x) <==> b.contains(x),
    ensures
        any_fires(a, r, fl) == any_fires(b, r, fl),
{
    if any_fires(a, r, fl) {
        let i = choose|i: int| 0 <= i < a.len() && rule_fires(#[trigger] a[i], r, fl);
        assert(a.contains(a[i]));
        let j = choose|j: int| 0 <= j < b.len() && b[j] == a[i];
        assert(rule_fires(b[j], r, fl));
    }
    if any_fires(b, r, fl) {
        let i = choose|i: int| 0 <= i < b.len() && rule_fires(#[trigger] b[i], r, fl);
        assert(b.contains(b[i]));
        let j = choose|j: int| 0 <= j < a.len() && a[j] == b[i];
        assert(rule_fires(a[j], r, fl));
    }
}

proof fn lemma_empty_members(a: Seq<Seq<char>>, b: Seq<Seq<char>>)
    requires
        forall|x: Seq<char>| a.contains(x) <==> b.contains(x),
    ensures
        (a.len() == 0) == (b.len() == 0),
{
    if a.len() > 0 {
        assert(a.contains(a[0]));
    }
    if b.len() > 0 {
        assert(b.contains(b[0]));
    }
}

/// The order in which rules are written does not matter: two rule lists
/// that hold the same rules decide alike on every repository.
pub proof fn lemma_rule_order_irrelevant(
    a: Seq<Seq<char>>,
    b: Seq<Seq<char>>,
    r: Seq<char>,
    fork: bool,
    arch: bool,
)
    requires
        a.to_set() == b.to_set(),
    ensures
        filter_of(a).decides(r, fork, arch) == filter_of(b).decides(r, fork, arch),
{
    lemma_parse_members(a);
    lemma_parse_members(b);
    let pa = parse_rules(a);
    let pb = parse_rules(b);
    assert forall|x: Seq<char>| a.contains(x) <==> b.contains(x) by {
        assert(a.to_set().contains(x) <==> a.contains(x));
        assert(b.to_set().contains(x) <==> b.contains(x));
    }
    assert forall|x: Seq<char>| accepted_by(a, x) <==> accepted_by(b, x) by {
        if accepted_by(a, x) {
            let i = choose|i: int| 0 <= i < a.len() && is_include_rule(#[trigger] a[i]) && a[i] == x;
            assert(a.contains(a[i]));
            let j = choose|j: int| 0 <= j < b.len() && b[j] == a[i];
            assert(is_include_rule(b[j]));
        }
        if accepted_by(b, x) {
            let i = choose|i: int| 0 <= i < b.len() && is_include_rule(#[trigger] b[i]) && b[i] == x;
            assert(b.contains(b[i]));
            let j = choose|j: int| 0 <= j < a.len() && a[j] == b[i];
            assert(is_include_rule(a[j]));
        }
    }
    assert forall|x: Seq<char>| rejected_by(a, x) <==> rejected_by(b, x) by {
        if rejected_by(a, x) {
            let i = choose|i: int| 0 <= i < a.len() && is_exclude_rule(#[trigger] a[i]) && a[i].drop_first() == x;
            assert(a.contains(a[i]));
            let j = choose|j: int| 0 <= j < b.len() && b[j] == a[i];
            assert(is_exclude_rule(b[j]));
        }
        if rejected_by(b, x) {
            let i = choose|i: int| 0 <= i < b.len() && is_exclude_rule(#[trigger] b[i]) && b[i].drop_first() == x;
            assert(b.contains(b[i]));
            let j = choose|j: int| 0 <= j < a.len() && a[j] == b[i];
            assert(is_exclude_rule(a[j]));
        }
    }
    assert forall|x: Seq<char>| pa.accept.contains(x) <==> pb.accept.contains(x) by {
        assert(pa.accept.contains(x) <==> accepted_by(a, x));
        assert(pb.accept.contains(x) <==> accepted_by(b, x));
    }
    assert forall|x: Seq<char>| pa.reject.contains(x) <==> pb.reject.contains(x) by {
        assert(pa.reject.contains(x) <==> rejected_by(a, x));
        assert(pb.reject.contains(x) <==> rejected_by(b, x));
    }
    let fl = filter_of(a).flagged(fork, arch);
    lemma_any_fires_members(pa.accept, pb.accept, r, fl);
    lemma_any_fires_members(pa.reject, pb.reject, r, fl);
    lemma_empty_members(pa.accept, pb.accept);
    lemma_empty_members(pa.reject, pb.reject);
}

/// A fork or archived repository that the filter excludes is taken only
/// through a rule naming it exactly: wildcards never let it in.
pub proof fn lemma_flagged_needs_exact_rule(f: RuleSet, r: Seq<char>, fork: bool, arch: bool)
    requires
        f.flagged(fork, arch),
    ensures
        f.decides(r, fork, arch) == (valid_name(r) && !f.reject.contains(r) && f.accept.contains(
            r,
        )),
{
    if any_fires(f.reject, r, true) {
        let i = choose|i: int| 0 <= i < f.reject.len() && rule_fires(#[trigger] f.reject[i], r, true);
        assert(f.reject.contains(r));
    }
    if f.reject.contains(r) {
        let i = choose|i: int| 0 <= i < f.reject.len() && f.reject[i] == r;
        assert(rule_fires(f.reject[i], r, true));
    }
    if any_fires(f.accept, r, true) {
        let i = choose|i: int| 0 <= i < f.accept.len() && rule_fires(#[trigger] f.accept[i], r, true);
        assert(f.accept.contains(r));
    }
    if f.accept.contains(r) {
        let i = choose|i: int| 0 <= i < f.accept.len() && f.accept[i] == r;
        assert(rule_fires(f.accept[i], r, true));
    }
}

} // verus!
