use vstd::prelude::*;
use crate::paths::{texts, trim_text, trimmed};
use crate::textlist::same_text;

verus! {

/// How many files the top-files report shows unless told otherwise.
pub const DEFAULT_TOP_FILES: usize = 5;

/// One statistics report.
#[derive(Debug, Clone, Copy, PartialEq, Eq, Structural)]
pub enum StatsReport {
    /// Size, words and estimated tokens of the whole output.
    Overview,
    /// The files with the most estimated tokens.
    TopFiles { count: usize },
}

/// The reports asked for by one `--stats` value.
#[derive(Debug, Clone)]
pub struct StatsReportSpec {
    pub reports: Vec<StatsReport>,
}

pub open spec fn is_digit(c: char) -> bool {
    '0' <= c <= '9'
}

pub open spec fn digit_value(c: char) -> int {
    (c as int) - ('0' as int)
}

/// The number that a run of decimal digits spells.
pub open spec fn decimal_value(s: Seq<char>) -> int
    decreases s.len(),
{
    if s.len() == 0 {
        0
    } else {
        decimal_value(s.drop_last()) * 10 + digit_value(s.last())
    }
}

/// A non-empty run of decimal digits.
pub open spec fn is_decimal(s: Seq<char>) -> bool {
    s.len() > 0 && forall|i: int| 0 <= i < s.len() ==> #[trigger] is_digit(s[i])
}

proof fn lemma_decimal_nonneg(s: Seq<char>)
    requires
        forall|i: int| 0 <= i < s.len() ==> #[trigger] is_digit(s[i]),
    ensures
        decimal_value(s) >= 0,
    decreases s.len(),
{
    if s.len() > 0 {
        assert(is_digit(s[s.len() - 1]));
        lemma_decimal_nonneg(s.drop_last());
    }
}

/// Reads a run of decimal digits: `None` unless it is one and its value fits
/// in `usize`.
pub fn parse_decimal(s: &str) -> (r: Option<usize>)
    ensures
        r matches Some(n) ==> is_decimal(s@) && n == decimal_value(s@),
        r is None ==> !is_decimal(s@) || decimal_value(s@) > usize::MAX,
{
    let n = s.unicode_len();
    if n == 0 {
        return None;
    }
    let mut value: usize = 0;
    let mut i: usize = 0;
    while i < n
        invariant
            n == s@.len(),
            i <= n,
            forall|j: int| 0 <= j < i ==> #[trigger] is_digit(s@[j]),
            value == decimal_value(s@.take(i as int)),
        decreases n - i,
    {
        let c = s.get_char(i);
        let ghost pre = s@.take(i as int);
        assert(s@.take(i + 1).drop_last() =~= pre);
        if !('0' <= c && c <= '9') {
            assert(!is_digit(s@[i as int]));
            return None;
        }
        let d = (c as u32 - '0' as u32) as usize;
        assert(d == digit_value(c));
        if value > (usize::MAX - d) / 10 {
            proof {
                lemma_decimal_nonneg(s@.take(i + 1));
                lemma_rest_grows(s@, i as int + 1);
            }
            return None;
        }
        value = value * 10 + d;
        i = i + 1;
    }
    assert(s@.take(n as int) =~= s@);
    Some(value)
}

/// Adding digits never makes a decimal value smaller.
proof fn lemma_rest_grows(s: Seq<char>, k: int)
    requires
        0 <= k <= s.len(),
        forall|j: int| 0 <= j < k ==> #[trigger] is_digit(s[j]),
    ensures
        is_decimal(s) ==> decimal_value(s) >= decimal_value(s.take(k)),
    decreases s.len() - k,
{
    if is_decimal(s) && k < s.len() {
        assert(is_digit(s[k]));
        lemma_rest_grows(s, k + 1);
        assert(s.take(k + 1).drop_last() =~= s.take(k));
        lemma_decimal_nonneg(s.take(k));
    } else if k == s.len() {
        assert(s.take(k) =~= s);
    }
}

/// The reports that a `--stats` value asks for, once trimmed: the default
/// bundle, `overview`, `top-files` (with the default count) or
/// `top-files=N` for a positive `N`; nothing for anything else.
pub open spec fn reports_of(t: Seq<char>) -> Option<Seq<StatsReport>> {
    if t == "__default__"@ {
        Some(seq![StatsReport::Overview, StatsReport::TopFiles { count: DEFAULT_TOP_FILES }])
    } else if t == "overview"@ {
        Some(seq![StatsReport::Overview])
    } else if t == "top-files"@ {
        Some(seq![StatsReport::TopFiles { count: DEFAULT_TOP_FILES }])
    } else if "top-files="@.is_prefix_of(t) && is_decimal(t.skip(10)) && 0 < decimal_value(
        t.skip(10),
    ) <= usize::MAX {
        Some(seq![StatsReport::TopFiles { count: decimal_value(t.skip(10)) as usize }])
    } else {
        None
    }
}

/// Reads a trimmed `--stats` value (see `reports_of`).
pub fn parse_reports_trimmed(t: &str) -> (r: Option<StatsReportSpec>)
    ensures
        r matches Some(spec) ==> reports_of(t@) == Some(spec.reports@),
        r is None ==> reports_of(t@) is None,
{
    proof {
        reveal_strlit("top-files=");
    }
    if same_text(t, "__default__") {
        let mut v = Vec::new();
        v.push(StatsReport::Overview);
        v.push(StatsReport::TopFiles { count: DEFAULT_TOP_FILES });
        assert(v@ =~= seq![StatsReport::Overview, StatsReport::TopFiles { count: DEFAULT_TOP_FILES }]);
        return Some(StatsReportSpec { reports: v });
    }
    if same_text(t, "overview") {
        let mut v = Vec::new();
        v.push(StatsReport::Overview);
        assert(v@ =~= seq![StatsReport::Overview]);
        return Some(StatsReportSpec { reports: v });
    }
    if same_text(t, "top-files") {
        let mut v = Vec::new();
        v.push(StatsReport::TopFiles { count: DEFAULT_TOP_FILES });
        assert(v@ =~= seq![StatsReport::TopFiles { count: DEFAULT_TOP_FILES }]);
        return Some(StatsReportSpec { reports: v });
    }
    let n = t.unicode_len();
    if n < 10 {
        return None;
    }
    let head = t.substring_char(0, 10);
    if !same_text(head, "top-files=") {
        assert(head@ =~= t@.subrange(0, 10));
        return None;
    }
    assert(head@ =~= t@.subrange(0, 10));
    let rest = t.substring_char(10, n);
    assert(rest@ =~= t@.skip(10));
    match parse_decimal(rest) {
        Some(count) => {
            if count == 0 {
                return None;
            }
            let mut v = Vec::new();
            v.push(StatsReport::TopFiles { count });
            assert(v@ =~= seq![StatsReport::TopFiles { count }]);
            Some(StatsReportSpec { reports: v })
        },
        None => None,
    }
}

/// Reads one `--stats` value, trimmed first (see `reports_of`).
pub fn parse_stats_report_spec(raw: &str) -> (r: Option<StatsReportSpec>)
    ensures
        r matches Some(spec) ==> reports_of(trimmed(raw@)) == Some(spec.reports@),
        r is None ==> reports_of(trimmed(raw@)) is None,
{
    let t = trim_text(raw);
    parse_reports_trimmed(t.as_str())
}

/// `s` without repeats, each kept at its first place.
pub open spec fn distinct_reports(s: Seq<StatsReport>) -> Seq<StatsReport>
    decreases s.len(),
{
    if s.len() == 0 {
        seq![]
    } else if s.drop_last().contains(s.last()) {
        distinct_reports(s.drop_last())
    } else {
        distinct_reports(s.drop_last()).push(s.last())
    }
}

/// All reports asked for, in order.
pub open spec fn all_reports(specs: Seq<StatsReportSpec>) -> Seq<StatsReport>
    decreases specs.len(),
{
    if specs.len() == 0 {
        seq![]
    } else {
        all_reports(specs.drop_last()) + specs.last().reports@
    }
}

/// The reports to print: each one asked for, once, in first-asked order; the
/// default bundle when none was asked for.
pub open spec fn chosen_reports(specs: Seq<StatsReportSpec>) -> Seq<StatsReport> {
    let d = distinct_reports(all_reports(specs));
    if d.len() == 0 {
        seq![StatsReport::Overview, StatsReport::TopFiles { count: DEFAULT_TOP_FILES }]
    } else {
        d
    }
}

proof fn lemma_distinct_contains(s: Seq<StatsReport>)
    ensures
        forall|x: StatsReport| distinct_reports(s).contains(x) <==> s.contains(x),
    decreases s.len(),
{
    if s.len() > 0 {
        let d = s.drop_last();
        lemma_distinct_contains(d);
        let dd = distinct_reports(d);
        assert forall|x: StatsReport| s.contains(x) <==> (d.contains(x) || x == s.last()) by {
            if s.contains(x) && x != s.last() {
                let p = choose|p: int| 0 <= p < s.len() && s[p] == x;
                assert(d[p] == x);
            }
            if d.contains(x) {
                let p = choose|p: int| 0 <= p < d.len() && d[p] == x;
                assert(s[p] == x);
            }
            if x == s.last() {
                assert(s[s.len() - 1] == x);
            }
        }
        if !d.contains(s.last()) {
            assert forall|x: StatsReport| dd.push(s.last()).contains(x) <==> (dd.contains(x) || x
                == s.last()) by {
                if dd.push(s.last()).contains(x) && x != s.last() {
                    let p = choose|p: int| 0 <= p < dd.len() + 1 && dd.push(s.last())[p] == x;
                    assert(dd[p] == x);
                }
                if dd.contains(x) {
                    let p = choose|p: int| 0 <= p < dd.len() && dd[p] == x;
                    assert(dd.push(s.last())[p] == x);
                }
                if x == s.last() {
                    assert(dd.push(s.last())[dd.len() as int] == x);
                }
            }
        }
    }
}

fn has_report(v: &Vec<StatsReport>, r: StatsReport) -> (b: bool)
    ensures
        b == v@.contains(r),
{
    let mut i: usize = 0;
    while i < v.len()
        invariant
            i <= v.len(),
            forall|j: int| 0 <= j < i ==> v@[j] != r,
        decreases v.len() - i,
    {
        if v[i] == r {
            return true;
        }
        i = i + 1;
    }
    false
}

/// The reports to print for the `--stats` values given (see `chosen_reports`).
pub fn collect_reports(specs: &Vec<StatsReportSpec>) -> (r: Vec<StatsReport>)
    ensures
        r@ == chosen_reports(specs@),
{
    let mut out: Vec<StatsReport> = Vec::new();
    let ghost mut seen: Seq<StatsReport> = seq![];
    let mut i: usize = 0;
    assert(specs@.take(0) =~= Seq::<StatsReportSpec>::empty());
    while i < specs.len()
        invariant
            i <= specs.len(),
            seen == all_reports(specs@.take(i as int)),
            out@ == distinct_reports(seen),
        decreases specs.len() - i,
    {
        let reports = &specs[i].reports;
        let mut k: usize = 0;
        let ghost base = seen;
        assert(reports@.take(0) =~= Seq::<StatsReport>::empty());
        assert(base + reports@.take(0) =~= base);
        while k < reports.len()
            invariant
                k <= reports.len(),
                seen == base + reports@.take(k as int),
                out@ == distinct_reports(seen),
            decreases reports.len() - k,
        {
            let r = reports[k];
            proof {
                lemma_distinct_contains(seen);
            }
            let ghost old_seen = seen;
            proof {
                seen = seen.push(r);
                assert(seen.drop_last() =~= old_seen);
                assert(reports@.take(k + 1) =~= reports@.take(k as int).push(r));
                assert(seen =~= base + reports@.take(k + 1));
            }
            if !has_report(&out, r) {
                out.push(r);
            }
            k = k + 1;
        }
        proof {
            assert(reports@.take(k as int) =~= reports@);
            assert(specs@.take(i + 1).drop_last() =~= specs@.take(i as int));
            assert(specs@.take(i + 1).last() == specs@[i as int]);
        }
        i = i + 1;
    }
    assert(specs@.take(i as int) =~= specs@);
    if out.len() == 0 {
        let mut v = Vec::new();
        v.push(StatsReport::Overview);
        v.push(StatsReport::TopFiles { count: DEFAULT_TOP_FILES });
        assert(v@ =~= seq![StatsReport::Overview, StatsReport::TopFiles { count: DEFAULT_TOP_FILES }]);
        return v;
    }
    out
}

/// Some entry, trimmed, is `word`.
pub open spec fn names_entry(entries: Seq<Seq<char>>, word: Seq<char>) -> bool {
    exists|i: int| 0 <= i < entries.len() && #[trigger] trimmed(entries[i]) == word
}

/// Reads a `tokens_exclude` list: whether it names the tree and whether it
/// names the headers; other entries are ignored.
pub fn tokens_exclude_flags(entries: &Vec<String>) -> (r: (bool, bool))
    ensures
        r.0 == names_entry(texts(entries@), "tree"@),
        r.1 == names_entry(texts(entries@), "headers"@),
{
    let ghost es = texts(entries@);
    let mut tree = false;
    let mut headers = false;
    let mut i: usize = 0;
    while i < entries.len()
        invariant
            i <= entries.len(),
            es == texts(entries@),
            tree == exists|j: int| 0 <= j < i && #[trigger] trimmed(es[j]) == "tree"@,
            headers == exists|j: int| 0 <= j < i && #[trigger] trimmed(es[j]) == "headers"@,
        decreases entries.len() - i,
    {
        let t = trim_text(entries[i].as_str());
        assert(es[i as int] == entries@[i as int]@);
        proof {
            reveal_strlit("tree");
            reveal_strlit("headers");
            assert("tree"@.len() != "headers"@.len());
        }
        if same_text(t.as_str(), "tree") {
            tree = true;
        } else if same_text(t.as_str(), "headers") {
            headers = true;
        }
        i = i + 1;
    }
    (tree, headers)
}

} // verus!
