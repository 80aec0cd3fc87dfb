//! The counters that one page visit increments.
use vstd::prelude::*;
use vstd::string::*;
use crate::assoc::keys_distinct;
use crate::tally::{
    count_value, hits, is_browser_key, is_kind, is_os_key, is_visit_key, label_of, labelled, piece,
    region_of, region_totals_spec, total_of, KeyKind,
};
use crate::text::{
    contains_seq, has_char, join_on, lemma_split_join, lemma_split_plain, lemma_split_rejoin,
    split_on,
};

verus! {

/// The browser and operating system that a user-agent parser found.
pub struct UserAgent {
    pub name: String,
    pub os: String,
}

/// The texts of a parsed user agent: browser name, then operating system.
pub open spec fn agent_text(a: Option<UserAgent>) -> Option<(Seq<char>, Seq<char>)> {
    match a {
        Some(u) => Some((u.name@, u.os@)),
        None => None,
    }
}

/// The browser name and operating system that woothee's `Parser::parse`
/// finds in a user-agent string (`None` when it recognises nothing).
pub uninterp spec fn woothee_parse(agent: Seq<char>) -> Option<(Seq<char>, Seq<char>)>;

/// Parses a user-agent string with woothee's `Parser::parse`, keeping the
/// browser name and the operating system of the result. The contract states
/// that the result is woothee's for that string, and, as woothee's source
/// shows, that an empty string or `-` gives `UNKNOWN` for both.
#[verifier::external_body]
fn parse_user_agent(agent: &str) -> (r: Option<UserAgent>)
    ensures
        agent_text(r) == woothee_parse(agent@),
        (agent@ == Seq::<char>::empty() || agent@ == seq!['-']) ==> agent_text(r) == Some(
            ("UNKNOWN"@, "UNKNOWN"@),
        ),
{
    match woothee::parser::Parser::new().parse(agent) {
        Some(res) => Some(UserAgent { name: res.name.to_string(), os: res.os.to_string() }),
        None => None,
    }
}

/// The key of the counter of visits from region `code` with browser `name`.
pub open spec fn browser_key(code: Seq<char>, name: Seq<char>) -> Seq<char> {
    code + ":browser:"@ + name
}

/// The key of the counter of visits from region `code` on operating system `os`.
pub open spec fn os_key(code: Seq<char>, os: Seq<char>) -> Seq<char> {
    code + ":os:"@ + os
}

/// The keys that a visit from region `code` increments, in order: the
/// region's counter, then, when the user agent was recognised, the counters
/// of its browser and of its operating system.
pub open spec fn visit_keys_spec(code: Seq<char>, agent: Option<(Seq<char>, Seq<char>)>) -> Seq<
    Seq<char>,
> {
    match agent {
        None => seq![code],
        Some((name, os)) => seq![code, browser_key(code, name), os_key(code, os)],
    }
}

/// The keys to increment for a visit from region `code` whose user agent, if
/// known, the parser read as `agent`.
pub fn visit_keys(code: &String, agent: Option<UserAgent>) -> (keys: Vec<String>)
    ensures
        keys@.map_values(|k: String| k@) == visit_keys_spec(code@, agent_text(agent)),
{
    let mut keys: Vec<String> = Vec::new();
    keys.push(code.clone());
    match agent {
        Some(ua) => {
            let browser = code.clone().concat(":browser:").concat(ua.name.as_str());
            let os = code.clone().concat(":os:").concat(ua.os.as_str());
            keys.push(browser);
            keys.push(os);
        },
        None => {},
    }
    assert(keys@.map_values(|k: String| k@) =~= visit_keys_spec(code@, agent_text(agent)));
    keys
}

/// The keys to increment for a visit from region `code` that sent the
/// `User-Agent` header `user_agent` (if any): the user agent goes through
/// woothee's parser first.
pub fn visit_keys_for_request(code: &String, user_agent: Option<&str>) -> (keys: Vec<String>)
    ensures
        keys@.map_values(|k: String| k@) == visit_keys_spec(
            code@,
            match user_agent {
                Some(a) => woothee_parse(a@),
                None => None,
            },
        ),
{
    let agent = match user_agent {
        Some(a) => parse_user_agent(a),
        None => None,
    };
    visit_keys(code, agent)
}

/// In `a + mid + b`, where only the ends of `mid` are `:`, the `:`s stand
/// exactly at the ends of `mid`.
proof fn lemma_colon_spots(a: Seq<char>, mid: Seq<char>, b: Seq<char>, i: int)
    requires
        !has_char(a, ':'),
        !has_char(b, ':'),
        mid.len() >= 2,
        mid[0] == ':',
        mid[mid.len() - 1] == ':',
        forall|x: int| 0 < x < mid.len() - 1 ==> mid[x] != ':',
        0 <= i < (a + mid + b).len(),
    ensures
        (a + mid + b)[i] == ':' <==> (i == a.len() || i == a.len() + mid.len() - 1),
{
    let k = a + mid + b;
    if i < a.len() {
        assert(k[i] == a[i]);
        if a[i] == ':' {
            assert(has_char(a, ':'));
        }
    } else if i < a.len() + mid.len() {
        assert(k[i] == mid[i - a.len()]);
    } else {
        assert(k[i] == b[i - a.len() - mid.len()]);
        if b[i - a.len() - mid.len()] == ':' {
            assert(has_char(b, ':'));
        }
    }
}

/// In `a + mid + b`, where only the ends of `mid` are `:`, a piece that starts
/// and ends with `:` occurs only if it is as long as `mid`; `mid` itself occurs.
proof fn lemma_marked_only(a: Seq<char>, mid: Seq<char>, b: Seq<char>, p: Seq<char>)
    requires
        !has_char(a, ':'),
        !has_char(b, ':'),
        mid.len() >= 2,
        mid[0] == ':',
        mid[mid.len() - 1] == ':',
        forall|x: int| 0 < x < mid.len() - 1 ==> mid[x] != ':',
        p.len() >= 2,
        p[0] == ':',
        p[p.len() - 1] == ':',
    ensures
        contains_seq(a + mid + b, p) ==> p.len() == mid.len(),
        contains_seq(a + mid + b, mid),
{
    let k = a + mid + b;
    if contains_seq(k, p) {
        let i = choose|i: int| 0 <= i && i + p.len() <= k.len() && #[trigger] k.subrange(i, i + p.len()) == p;
        assert(k[i] == k.subrange(i, i + p.len())[0]);
        assert(k[i + p.len() - 1] == k.subrange(i, i + p.len())[p.len() - 1]);
        lemma_colon_spots(a, mid, b, i);
        lemma_colon_spots(a, mid, b, i + p.len() - 1);
    }
    assert(k.subrange(a.len() as int, (a.len() + mid.len()) as int) =~= mid);
}

/// The pieces of `a + mid + b`, where only the ends of `mid` are `:`.
proof fn lemma_marked_pieces(a: Seq<char>, mid: Seq<char>, b: Seq<char>)
    requires
        !has_char(a, ':'),
        !has_char(b, ':'),
        mid.len() >= 2,
        mid[0] == ':',
        mid[mid.len() - 1] == ':',
        forall|x: int| 0 < x < mid.len() - 1 ==> mid[x] != ':',
    ensures
        split_on(a + mid + b, ':') == seq![a, mid.subrange(1, mid.len() - 1), b],
{
    let m = mid.subrange(1, mid.len() - 1);
    assert(!has_char(m, ':')) by {
        if has_char(m, ':') {
            let x = choose|x: int| 0 <= x < m.len() && m[x] == ':';
            assert(mid[x + 1] == ':');
        }
    }
    assert(a + mid + b =~= a.push(':') + (m.push(':') + b));
    lemma_split_join(m, b, ':');
    lemma_split_join(a, m.push(':') + b, ':');
    lemma_split_plain(a, ':');
    lemma_split_plain(m, ':');
    lemma_split_plain(b, ':');
    assert(split_on(a + mid + b, ':') =~= seq![a, m, b]);
}

/// What a visit writes, the totals read back. For a region code, browser
/// name and operating system without `:`, the region's key is a visit key of
/// that region and of no other kind; the browser key is a browser key of that
/// region and browser and of no other kind; the operating-system key is an
/// operating-system key of that region and operating system and of no other
/// kind.
pub proof fn lemma_visit_keys_read_back(code: Seq<char>, name: Seq<char>, os: Seq<char>)
    requires
        !has_char(code, ':'),
        !has_char(name, ':'),
        !has_char(os, ':'),
    ensures
        is_visit_key(code),
        !is_os_key(code),
        !is_browser_key(code),
        region_of(KeyKind::Visits, code) == code,
        is_browser_key(browser_key(code, name)),
        !is_visit_key(browser_key(code, name)),
        !is_os_key(browser_key(code, name)),
        region_of(KeyKind::Browsers, browser_key(code, name)) == code,
        label_of(browser_key(code, name)) == name,
        is_os_key(os_key(code, os)),
        !is_visit_key(os_key(code, os)),
        !is_browser_key(os_key(code, os)),
        region_of(KeyKind::Os, os_key(code, os)) == code,
        label_of(os_key(code, os)) == os,
{
    reveal_strlit(":browser:");
    reveal_strlit(":os:");
    let bm = ":browser:"@;
    let om = ":os:"@;
    assert(bm[0] == ':' && bm[bm.len() - 1] == ':');
    assert(om[0] == ':' && om[om.len() - 1] == ':');
    assert forall|x: int| 0 < x < bm.len() - 1 implies bm[x] != ':' by {}
    assert forall|x: int| 0 < x < om.len() - 1 implies om[x] != ':' by {}
    // The region's own key holds no `:`, so no marker occurs in it.
    assert(!contains_seq(code, om)) by {
        if contains_seq(code, om) {
            let i = choose|i: int| 0 <= i && i + om.len() <= code.len() && #[trigger] code.subrange(i, i + om.len()) == om;
            assert(code[i] == code.subrange(i, i + om.len())[0]);
        }
    }
    assert(!contains_seq(code, bm)) by {
        if contains_seq(code, bm) {
            let i = choose|i: int| 0 <= i && i + bm.len() <= code.len() && #[trigger] code.subrange(i, i + bm.len()) == bm;
            assert(code[i] == code.subrange(i, i + bm.len())[0]);
        }
    }
    // The browser key.
    let bk = browser_key(code, name);
    lemma_marked_only(code, bm, name, om);
    lemma_marked_only(code, bm, name, bm);
    lemma_marked_pieces(code, bm, name);
    lemma_colon_spots(code, bm, name, code.len() as int);
    assert(has_char(bk, ':'));
    // The operating-system key.
    let ok = os_key(code, os);
    lemma_marked_only(code, om, os, bm);
    lemma_marked_only(code, om, os, om);
    lemma_marked_pieces(code, om, os);
    lemma_colon_spots(code, om, os, code.len() as int);
    assert(has_char(ok, ':'));
}

/// The keys of a visit name the visit's own region: the region code alone
/// when the user agent was not recognised; otherwise the code, then the code
/// followed by `:browser:` and the browser name, then the code followed by
/// `:os:` and the operating system. When none of the three holds `:`, the
/// totals read the browser and operating-system keys back as counters of
/// that same region, with that browser and that operating system.
pub proof fn lemma_visit_keys_name_region(code: Seq<char>, name: Seq<char>, os: Seq<char>)
    ensures
        visit_keys_spec(code, None) == seq![code],
        visit_keys_spec(code, Some((name, os))).len() == 3,
        visit_keys_spec(code, Some((name, os)))[0] == code,
        visit_keys_spec(code, Some((name, os)))[1] == code + ":browser:"@ + name,
        visit_keys_spec(code, Some((name, os)))[2] == code + ":os:"@ + os,
        (!has_char(code, ':') && !has_char(name, ':') && !has_char(os, ':')) ==> {
            let keys = visit_keys_spec(code, Some((name, os)));
            &&& is_visit_key(keys[0]) && region_of(KeyKind::Visits, keys[0]) == code
            &&& is_browser_key(keys[1]) && region_of(KeyKind::Browsers, keys[1]) == code
            &&& label_of(keys[1]) == name
            &&& is_os_key(keys[2]) && region_of(KeyKind::Os, keys[2]) == code
            &&& label_of(keys[2]) == os
        },
{
    if !has_char(code, ':') && !has_char(name, ':') && !has_char(os, ':') {
        lemma_visit_keys_read_back(code, name, os);
    }
}

/// The key of the counter of the given kind (operating system or browser)
/// for region `r` and label `l`.
pub open spec fn label_key(kind: KeyKind, r: Seq<char>, l: Seq<char>) -> Seq<char> {
    match kind {
        KeyKind::Os => os_key(r, l),
        _ => browser_key(r, l),
    }
}

/// A key of an operating-system or browser counter that splits into three
/// pieces is the key of its region and label.
proof fn lemma_three_piece_key(k: Seq<char>, kind: KeyKind)
    requires
        !(kind is Visits),
        is_kind(kind, k),
        split_on(k, ':').len() == 3,
    ensures
        k == label_key(kind, piece(k, 0), piece(k, 2)),
{
    reveal_strlit(":browser:");
    reveal_strlit(":os:");
    let m = if kind is Os { ":os:"@ } else { ":browser:"@ };
    let ps = split_on(k, ':');
    lemma_split_rejoin(k, ':');
    assert(!has_char(ps[0], ':') && !has_char(ps[1], ':') && !has_char(ps[2], ':'));
    let mid = seq![':'] + ps[1] + seq![':'];
    let p2 = ps.drop_last();
    assert(p2.drop_last() =~= seq![ps[0]]);
    assert(join_on(p2.drop_last(), ':') == ps[0]);
    assert(p2.last() == ps[1]);
    assert(join_on(p2, ':') == ps[0].push(':') + ps[1]);
    assert(join_on(ps, ':') == join_on(p2, ':').push(':') + ps[2]);
    assert(k =~= ps[0] + mid + ps[2]);
    assert forall|x: int| 0 < x < mid.len() - 1 implies mid[x] != ':' by {
        assert(mid[x] == ps[1][x - 1]);
        if ps[1][x - 1] == ':' {
            assert(has_char(ps[1], ':'));
        }
    }
    assert(contains_seq(k, m));
    let i = choose|i: int| 0 <= i && i + m.len() <= k.len() && #[trigger] k.subrange(i, i + m.len()) == m;
    assert(k[i] == k.subrange(i, i + m.len())[0]);
    assert(k[i + m.len() - 1] == k.subrange(i, i + m.len())[m.len() - 1]);
    lemma_colon_spots(ps[0], mid, ps[2], i);
    lemma_colon_spots(ps[0], mid, ps[2], i + m.len() - 1);
    assert(mid =~= m) by {
        assert forall|x: int| 0 <= x < m.len() implies mid[x] == m[x] by {
            assert(k[i + x] == k.subrange(i, i + m.len())[x]);
            assert(k[i + x] == (ps[0] + mid + ps[2])[i + x]);
        }
    }
}

/// With distinct keys, each of that kind splitting into three pieces, the
/// total of a region and label is the counter of its key.
proof fn lemma_single_label(
    d: Seq<(Seq<char>, Seq<char>)>,
    i: int,
    kind: KeyKind,
    r: Seq<char>,
    l: Seq<char>,
)
    requires
        keys_distinct(d),
        0 <= i < d.len(),
        !(kind is Visits),
        d[i].0 == label_key(kind, r, l),
        hits(kind, d[i].0, r, l),
        forall|j: int| 0 <= j < d.len() && is_kind(kind, (#[trigger] d[j]).0) ==> split_on(d[j].0, ':').len() == 3,
    ensures
        labelled(d, kind, r, l),
        total_of(d, kind, r, l) == count_value(d[i].1),
    decreases d.len(),
{
    let t = d.drop_last();
    assert forall|j: int| 0 <= j < t.len() && is_kind(kind, (#[trigger] t[j]).0) implies split_on(t[j].0, ':').len() == 3 by {
        assert(t[j] == d[j]);
    }
    let last = d[d.len() - 1];
    if i == d.len() - 1 {
        lemma_no_other_label(t, kind, r, l, last.0);
    } else {
        assert(keys_distinct(t)) by {
            assert forall|a: int, b: int| 0 <= a < t.len() && 0 <= b < t.len() && a != b implies t[a].0 != t[b].0 by {
                assert(t[a] == d[a] && t[b] == d[b]);
            }
        }
        assert(t[i] == d[i]);
        lemma_single_label(t, i, kind, r, l);
        assert(last.0 != d[i].0);
        if hits(kind, last.0, r, l) {
            lemma_three_piece_key(last.0, kind);
        }
    }
}

/// Keys other than `key`, each of that kind splitting into three pieces, do
/// not name the region and label of `key`.
proof fn lemma_no_other_label(
    d: Seq<(Seq<char>, Seq<char>)>,
    kind: KeyKind,
    r: Seq<char>,
    l: Seq<char>,
    key: Seq<char>,
)
    requires
        !(kind is Visits),
        key == label_key(kind, r, l),
        forall|j: int| 0 <= j < d.len() ==> (#[trigger] d[j]).0 != key,
        forall|j: int| 0 <= j < d.len() && is_kind(kind, (#[trigger] d[j]).0) ==> split_on(d[j].0, ':').len() == 3,
    ensures
        total_of(d, kind, r, l) == 0,
    decreases d.len(),
{
    if d.len() > 0 {
        let t = d.drop_last();
        assert forall|j: int| 0 <= j < t.len() implies (#[trigger] t[j]).0 != key by {
            assert(t[j] == d[j]);
        }
        assert forall|j: int| 0 <= j < t.len() && is_kind(kind, (#[trigger] t[j]).0) implies split_on(t[j].0, ':').len() == 3 by {
            assert(t[j] == d[j]);
        }
        lemma_no_other_label(t, kind, r, l, key);
        let last = d[d.len() - 1];
        if hits(kind, last.0, r, l) {
            lemma_three_piece_key(last.0, kind);
        }
    }
}

/// A region's count for an operating system or a browser is its counter. When
/// the keys read from the store are distinct (as those of a map are) and each
/// operating-system (or browser) key splits into exactly three pieces, as the
/// keys that visits write do, the pair whose key is `r:os:o` (or
/// `r:browser:b`), for `r` and `o` (or `b`) without `:`, gives region `r`
/// exactly that pair's number for `o` (or `b`).
pub proof fn lemma_label_read_back(
    d: Seq<(Seq<char>, Seq<char>)>,
    i: int,
    kind: KeyKind,
    r: Seq<char>,
    l: Seq<char>,
)
    requires
        keys_distinct(d),
        0 <= i < d.len(),
        !(kind is Visits),
        !has_char(r, ':'),
        !has_char(l, ':'),
        d[i].0 == label_key(kind, r, l),
        forall|j: int| 0 <= j < d.len() && is_kind(kind, (#[trigger] d[j]).0) ==> split_on(d[j].0, ':').len() == 3,
    ensures
        region_totals_spec(d).contains_key(r),
        kind is Os ==> region_totals_spec(d)[r].os.contains_key(l) && region_totals_spec(d)[r].os[l]
            == count_value(d[i].1),
        kind is Browsers ==> region_totals_spec(d)[r].browsers.contains_key(l) && region_totals_spec(
            d,
        )[r].browsers[l] == count_value(d[i].1),
{
    lemma_visit_keys_read_back(r, l, l);
    assert(hits(kind, d[i].0, r, l));
    lemma_single_label(d, i, kind, r, l);
    crate::tally::lemma_labelled_mentions(d, kind, r, l);
}

} // verus!
