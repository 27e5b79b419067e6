//! URL normalization.
//!
//! [`UrlNormalizer::normalize`] maps textually divergent but semantically
//! equivalent URLs to one canonical string: the scheme and host are
//! lowercased, a leading `www.` and scheme-default ports are dropped, the
//! path keeps its case but loses trailing slashes, tracking parameters are
//! removed, surviving query pairs are sorted by key, and the fragment is
//! dropped. Every step is configurable through [`NormalizerConfig`], and a
//! per-domain [`DomainRule`] can replace the whole pipeline for the URLs of
//! one domain. [`canonical_seq`] states the exact output.
//!
//! Path case is preserved — paths are case-sensitive in general — while
//! hostname case is not; this asymmetry is deliberate.

use vstd::prelude::*;

use crate::chars::append_chars;
use crate::chars::chars_to_string;
use crate::chars::dec_chars;
use crate::chars::eq_chars;
use crate::chars::has_prefix;
use crate::chars::lower_chars;
use crate::chars::lower_seq;
use crate::chars::starts_with_www;
use crate::chars::str_to_chars;
use crate::chars::suffix_chars;
use crate::chars::trim_slashes;
use crate::chars::trim_trailing_slashes;
use crate::chars::u16_to_chars;
use crate::errors::ParseError;
use crate::pairsort::sort_pairs;
use crate::pairsort::sort_pairs_exec;
use crate::urlparse::opt_view;
use crate::urlparse::pairs_view;
use crate::urlparse::parse_url;
use crate::urlparse::url_domain;
use crate::urlparse::url_fragment;
use crate::urlparse::url_has_query;
use crate::urlparse::url_host;
use crate::urlparse::url_pairs;
use crate::urlparse::url_parses;
use crate::urlparse::url_path;
use crate::urlparse::url_port;
use crate::urlparse::url_scheme;
use crate::urlparse::ParsedUrl;

verus! {

/// Normalization flags. All default to on.
#[derive(Clone, Copy, Debug, PartialEq, Eq, Structural)]
pub struct NormalizerConfig {
    /// Lowercase the scheme.
    pub lowercase_scheme: bool,
    /// Drop a leading `www.` from the host.
    pub remove_www: bool,
    /// Drop an explicit port equal to the scheme's default.
    pub remove_default_port: bool,
    /// Sort surviving query pairs by key, ascending, stably.
    pub sort_query_params: bool,
    /// Drop the fragment.
    pub remove_fragment: bool,
    /// Lowercase the hostname (ASCII).
    pub lowercase_hostname: bool,
}

/// The default configuration: every flag on.
pub open spec fn default_config() -> NormalizerConfig {
    NormalizerConfig {
        lowercase_scheme: true,
        remove_www: true,
        remove_default_port: true,
        sort_query_params: true,
        remove_fragment: true,
        lowercase_hostname: true,
    }
}

/// A per-domain override: when a URL's domain carries a rule, the rule's
/// output is the canonical string and the generic pipeline is bypassed.
pub enum DomainRule {
    /// Keep only the named query parameters, in their textual order and
    /// unsorted; scheme, host and path are still canonicalized.
    KeepParams(Vec<Vec<char>>),
    /// Every URL of the domain maps to this one canonical string.
    Fixed(Vec<char>),
}

/// Mathematical view of a [`DomainRule`].
pub enum RuleV {
    /// View of [`DomainRule::KeepParams`].
    KeepParams(Seq<Seq<char>>),
    /// View of [`DomainRule::Fixed`].
    Fixed(Seq<char>),
}

impl View for DomainRule {
    type V = RuleV;

    open spec fn view(&self) -> RuleV {
        match self {
            DomainRule::KeepParams(names) => RuleV::KeepParams(
                names@.map_values(|n: Vec<char>| n@),
            ),
            DomainRule::Fixed(c) => RuleV::Fixed(c@),
        }
    }
}

impl DomainRule {
    /// A rule that keeps only the named query parameters.
    pub fn keep_params(names: Vec<String>) -> (r: DomainRule)
        ensures
            r@ == RuleV::KeepParams(names@.map_values(|n: String| n@)),
    {
        let mut out: Vec<Vec<char>> = Vec::new();
        let n = names.len();
        let mut i: usize = 0;
        while i < n
            invariant
                n == names@.len(),
                i <= n,
                out@.len() == i,
                forall|j: int| 0 <= j < i ==> #[trigger] out@[j]@ == names@[j]@,
            decreases n - i,
        {
            out.push(str_to_chars(names[i].as_str()));
            i = i + 1;
        }
        assert(out@.map_values(|v: Vec<char>| v@) =~= names@.map_values(|s: String| s@));
        DomainRule::KeepParams(out)
    }

    /// A rule that maps every URL of the domain to one fixed string.
    pub fn fixed(canonical: &str) -> (r: DomainRule)
        ensures
            r@ == RuleV::Fixed(canonical@),
    {
        DomainRule::Fixed(str_to_chars(canonical))
    }
}

/// URL normalizer: configuration flags, the set of tracking-parameter names
/// it removes, and per-domain override rules.
pub struct UrlNormalizer {
    tracking_params: Vec<Vec<char>>,
    domain_rules: Vec<(Vec<char>, DomainRule)>,
    config: NormalizerConfig,
}

/// Mathematical view of a [`UrlNormalizer`].
pub struct NormView {
    /// Names of query parameters to remove.
    pub tracking: Seq<Seq<char>>,
    /// Domain-rule table: at most one live rule per key, the exact key
    /// preferred over the `www.`-stripped one at lookup.
    pub rules: Seq<(Seq<char>, RuleV)>,
    /// The flags.
    pub config: NormalizerConfig,
}

impl View for UrlNormalizer {
    type V = NormView;

    closed spec fn view(&self) -> NormView {
        NormView {
            tracking: self.tracking_params@.map_values(|p: Vec<char>| p@),
            rules: self.domain_rules@.map_values(|e: (Vec<char>, DomainRule)| (e.0@, e.1@)),
            config: self.config,
        }
    }
}

/// The `www.` host prefix.
pub open spec fn www_prefix() -> Seq<char> {
    seq!['w', 'w', 'w', '.']
}

/// The scheme name `http`.
pub open spec fn http_scheme() -> Seq<char> {
    seq!['h', 't', 't', 'p']
}

/// The scheme name `https`.
pub open spec fn https_scheme() -> Seq<char> {
    seq!['h', 't', 't', 'p', 's']
}

/// Is `p` the scheme's default port? Defaults are `http:80` and `https:443`.
pub open spec fn is_default_port(scheme: Seq<char>, p: u16) -> bool {
    (scheme == http_scheme() && p == 80) || (scheme == https_scheme() && p == 443)
}

/// Is `k` one of the listed names?
pub open spec fn name_listed(names: Seq<Seq<char>>, k: Seq<char>) -> bool {
    exists|i: int| 0 <= i < names.len() && names[i] == k
}

/// The pairs of `ps` whose key's membership in `names` equals `keep_named`,
/// in order: with `keep_named == false` this removes the listed (tracking)
/// keys, with `true` it keeps only the listed (whitelisted) keys.
pub open spec fn filter_pairs(
    names: Seq<Seq<char>>,
    keep_named: bool,
    ps: Seq<(Seq<char>, Seq<char>)>,
) -> Seq<(Seq<char>, Seq<char>)>
    decreases ps.len(),
{
    if ps.len() == 0 {
        Seq::empty()
    } else {
        let rest = filter_pairs(names, keep_named, ps.drop_first());
        if name_listed(names, ps[0].0) == keep_named {
            seq![ps[0]] + rest
        } else {
            rest
        }
    }
}

/// Every pair the filter lets through has the membership the filter asked
/// for.
pub proof fn lemma_filter_pairs_pass(
    names: Seq<Seq<char>>,
    keep_named: bool,
    ps: Seq<(Seq<char>, Seq<char>)>,
)
    ensures
        forall|j: int|
            0 <= j < filter_pairs(names, keep_named, ps).len() ==> name_listed(
                names,
                (#[trigger] filter_pairs(names, keep_named, ps)[j]).0,
            ) == keep_named,
    decreases ps.len(),
{
    if ps.len() > 0 {
        lemma_filter_pairs_pass(names, keep_named, ps.drop_first());
        let rest = filter_pairs(names, keep_named, ps.drop_first());
        let whole = filter_pairs(names, keep_named, ps);
        if name_listed(names, ps[0].0) == keep_named {
            assert(whole =~= seq![ps[0]] + rest);
            assert forall|j: int| 0 <= j < whole.len() implies name_listed(
                names,
                (#[trigger] whole[j]).0,
            ) == keep_named by {
                if j > 0 {
                    assert(whole[j] == rest[j - 1]);
                }
            }
        } else {
            assert(whole =~= rest);
        }
    }
}

/// A sequence the filter would pass entirely is returned unchanged.
pub proof fn lemma_filter_pairs_all_pass(
    names: Seq<Seq<char>>,
    keep_named: bool,
    s: Seq<(Seq<char>, Seq<char>)>,
)
    requires
        forall|j: int|
            0 <= j < s.len() ==> name_listed(names, (#[trigger] s[j]).0) == keep_named,
    ensures
        filter_pairs(names, keep_named, s) == s,
    decreases s.len(),
{
    if s.len() > 0 {
        let tail = s.drop_first();
        assert(forall|j: int| 0 <= j < tail.len() ==> tail[j] == s[j + 1]);
        lemma_filter_pairs_all_pass(names, keep_named, tail);
        assert(seq![s[0]] + tail =~= s);
    }
}

/// Filtering is idempotent: a second pass removes nothing more.
pub proof fn lemma_filter_pairs_idempotent(
    names: Seq<Seq<char>>,
    keep_named: bool,
    ps: Seq<(Seq<char>, Seq<char>)>,
)
    ensures
        filter_pairs(names, keep_named, filter_pairs(names, keep_named, ps)) == filter_pairs(
            names,
            keep_named,
            ps,
        ),
{
    lemma_filter_pairs_pass(names, keep_named, ps);
    lemma_filter_pairs_all_pass(names, keep_named, filter_pairs(names, keep_named, ps));
}

/// `key=value`.
pub open spec fn pair_chars(kv: (Seq<char>, Seq<char>)) -> Seq<char> {
    kv.0 + seq!['='] + kv.1
}

/// `k1=v1&k2=v2&…`.
pub open spec fn join_pairs(ps: Seq<(Seq<char>, Seq<char>)>) -> Seq<char>
    decreases ps.len(),
{
    if ps.len() == 0 {
        Seq::empty()
    } else if ps.len() == 1 {
        pair_chars(ps[0])
    } else {
        pair_chars(ps[0]) + seq!['&'] + join_pairs(ps.drop_first())
    }
}

/// Appending a pair extends the joined string by `&key=value`.
pub proof fn lemma_join_push(ps: Seq<(Seq<char>, Seq<char>)>, kv: (Seq<char>, Seq<char>))
    ensures
        join_pairs(ps.push(kv)) =~= if ps.len() == 0 {
            pair_chars(kv)
        } else {
            join_pairs(ps) + seq!['&'] + pair_chars(kv)
        },
    decreases ps.len(),
{
    let e = ps.push(kv);
    if ps.len() == 0 {
        assert(e.len() == 1 && e[0] == kv);
    } else {
        assert(e[0] == ps[0]);
        assert(e.drop_first() =~= ps.drop_first().push(kv));
        lemma_join_push(ps.drop_first(), kv);
    }
}

/// The canonical scheme: lowercased when configured.
pub open spec fn scheme_part(cfg: NormalizerConfig, scheme: Seq<char>) -> Seq<char> {
    if cfg.lowercase_scheme {
        lower_seq(scheme)
    } else {
        scheme
    }
}

/// The canonical host: lowercased and stripped of a leading `www.` when
/// configured. The `www.` test looks at the host after lowercasing.
pub open spec fn host_part(cfg: NormalizerConfig, host: Seq<char>) -> Seq<char> {
    let h = if cfg.lowercase_hostname {
        lower_seq(host)
    } else {
        host
    };
    if cfg.remove_www && has_prefix(h, www_prefix()) {
        h.skip(4)
    } else {
        h
    }
}

/// The canonical port: `:P` whenever a port is explicit, except that a
/// scheme-default port is dropped when configured. Non-default ports are
/// always kept.
pub open spec fn port_part(cfg: NormalizerConfig, scheme: Seq<char>, port: Option<u16>) -> Seq<
    char,
> {
    match port {
        Some(p) => if cfg.remove_default_port && is_default_port(scheme, p) {
            Seq::empty()
        } else {
            seq![':'] + dec_chars(p as nat)
        },
        None => Seq::empty(),
    }
}

/// The canonical path: trailing slashes trimmed, except that the root path
/// `/` is kept as it is. Path case is preserved.
pub open spec fn path_part(path: Seq<char>) -> Seq<char> {
    if path == seq!['/'] {
        path
    } else {
        trim_trailing_slashes(path)
    }
}

/// The canonical query: tracking parameters removed, the survivors sorted
/// by key when configured, and emitted as `?k1=v1&…`; nothing at all when
/// there is no query or no pair survives.
pub open spec fn query_part(
    cfg: NormalizerConfig,
    tracking: Seq<Seq<char>>,
    has_query: bool,
    ps: Seq<(Seq<char>, Seq<char>)>,
) -> Seq<char> {
    if has_query {
        let kept = filter_pairs(tracking, false, ps);
        if kept.len() == 0 {
            Seq::empty()
        } else {
            seq!['?'] + join_pairs(
                if cfg.sort_query_params {
                    sort_pairs(kept)
                } else {
                    kept
                },
            )
        }
    } else {
        Seq::empty()
    }
}

/// The canonical fragment: nothing when configured away, `#f` otherwise.
pub open spec fn fragment_part(cfg: NormalizerConfig, frag: Option<Seq<char>>) -> Seq<char> {
    if cfg.remove_fragment {
        Seq::empty()
    } else {
        match frag {
            Some(f) => seq!['#'] + f,
            None => Seq::empty(),
        }
    }
}

/// The generic canonical string of a parseable URL with a host.
pub open spec fn generic_canonical(cfg: NormalizerConfig, tracking: Seq<Seq<char>>, s: Seq<char>) -> Seq<
    char,
> {
    scheme_part(cfg, url_scheme(s)) + seq![':', '/', '/'] + host_part(cfg, url_host(s)->0)
        + port_part(cfg, url_scheme(s), url_port(s)) + path_part(url_path(s)) + query_part(
        cfg,
        tracking,
        url_has_query(s),
        url_pairs(s),
    ) + fragment_part(cfg, url_fragment(s))
}

/// Canonicalization is idempotent component by component: the canonical
/// scheme, host and path are already canonical, so running each rule again
/// changes nothing. The one caveat is the host: a host such as
/// `www.www.example.com` loses one `www.` per pass, so the host rule is
/// idempotent only once no `www.` prefix is left — which is the case for
/// every single-prefix host. Together with
/// [`crate::pairsort::lemma_sort_pairs_idempotent`] and
/// [`lemma_filter_pairs_idempotent`] this is the idempotence of the whole
/// canonicalization algebra; the round trip through the external parser is
/// outside what these laws can speak of.
pub proof fn lemma_parts_idempotent(
    cfg: NormalizerConfig,
    scheme: Seq<char>,
    host: Seq<char>,
    path: Seq<char>,
)
    ensures
        scheme_part(cfg, scheme_part(cfg, scheme)) == scheme_part(cfg, scheme),
        !has_prefix(host_part(cfg, host), www_prefix()) ==> host_part(cfg, host_part(cfg, host))
            == host_part(cfg, host),
        path_part(path_part(path)) == path_part(path),
{
    crate::chars::lemma_lower_seq_idempotent(scheme);
    let h1 = host_part(cfg, host);
    if !has_prefix(h1, www_prefix()) {
        crate::chars::lemma_lower_seq_idempotent(host);
        if cfg.lowercase_hostname {
            let lh = lower_seq(host);
            if cfg.remove_www && has_prefix(lh, www_prefix()) {
                assert(lh.len() >= 4);
                assert(lower_seq(lh.skip(4)) =~= lower_seq(lh).skip(4));
            }
            assert(lower_seq(h1) =~= h1);
        }
    }
    crate::chars::lemma_trim_slashes_idempotent(path);
    crate::chars::lemma_trim_slashes_no_tail(path);
    if path != seq!['/'] {
        let q = trim_trailing_slashes(path);
        if q == seq!['/'] {
            assert(q.last() == '/');
        }
    }
}

/// The first rule registered under exactly the key `d`, if any. The table
/// never holds two live rules for one key — registering again replaces —
/// so this is the rule for `d`.
pub open spec fn find_exact(rules: Seq<(Seq<char>, RuleV)>, d: Seq<char>) -> Option<RuleV>
    decreases rules.len(),
{
    if rules.len() == 0 {
        None
    } else if rules[0].0 == d {
        Some(rules[0].1)
    } else {
        find_exact(rules.drop_first(), d)
    }
}

/// The rule governing a URL's domain, if any: the rule registered under the
/// domain itself when there is one, otherwise — for a domain with a leading
/// `www.` — the rule registered under the domain without that prefix.
pub open spec fn find_rule(rules: Seq<(Seq<char>, RuleV)>, dom: Option<Seq<char>>) -> Option<
    RuleV,
> {
    match dom {
        None => None,
        Some(d) => match find_exact(rules, d) {
            Some(r) => Some(r),
            None => if has_prefix(d, www_prefix()) {
                find_exact(rules, d.skip(4))
            } else {
                None
            },
        },
    }
}

/// The rule table without the entries registered under key `d`.
pub open spec fn remove_rules_for(rules: Seq<(Seq<char>, RuleV)>, d: Seq<char>) -> Seq<
    (Seq<char>, RuleV),
>
    decreases rules.len(),
{
    if rules.len() == 0 {
        Seq::empty()
    } else {
        let rest = remove_rules_for(rules.drop_first(), d);
        if rules[0].0 == d {
            rest
        } else {
            seq![rules[0]] + rest
        }
    }
}

/// What the removal returns carries no entry under the removed key.
proof fn lemma_remove_rules_pass(rules: Seq<(Seq<char>, RuleV)>, d: Seq<char>)
    ensures
        forall|j: int|
            0 <= j < remove_rules_for(rules, d).len() ==> (#[trigger] remove_rules_for(rules, d)[j]).0
                != d,
    decreases rules.len(),
{
    if rules.len() > 0 {
        lemma_remove_rules_pass(rules.drop_first(), d);
        let rest = remove_rules_for(rules.drop_first(), d);
        let whole = remove_rules_for(rules, d);
        if rules[0].0 == d {
            assert(whole =~= rest);
        } else {
            assert(whole =~= seq![rules[0]] + rest);
            assert forall|j: int| 0 <= j < whole.len() implies (#[trigger] whole[j]).0 != d by {
                if j > 0 {
                    assert(whole[j] == rest[j - 1]);
                }
            }
        }
    }
}

/// Appending an entry under a key that occurs nowhere in the table makes
/// its rule the exact match for that key.
proof fn lemma_find_exact_appended(s: Seq<(Seq<char>, RuleV)>, d: Seq<char>, r: RuleV)
    requires
        forall|j: int| 0 <= j < s.len() ==> (#[trigger] s[j]).0 != d,
    ensures
        find_exact(s.push((d, r)), d) == Some(r),
    decreases s.len(),
{
    if s.len() == 0 {
        assert(s.push((d, r))[0] == (d, r));
    } else {
        assert(s.push((d, r))[0] == s[0]);
        assert(s.push((d, r)).drop_first() =~= s.drop_first().push((d, r)));
        assert(forall|j: int|
            0 <= j < s.drop_first().len() ==> (#[trigger] s.drop_first()[j]) == s[j + 1]);
        lemma_find_exact_appended(s.drop_first(), d, r);
    }
}

/// The canonical string a domain rule produces.
pub open spec fn rule_canonical(cfg: NormalizerConfig, r: RuleV, s: Seq<char>) -> Seq<char> {
    match r {
        RuleV::Fixed(c) => c,
        RuleV::KeepParams(names) => {
            let kept = filter_pairs(names, true, url_pairs(s));
            scheme_part(cfg, url_scheme(s)) + seq![':', '/', '/'] + host_part(
                cfg,
                url_host(s)->0,
            ) + port_part(cfg, url_scheme(s), url_port(s)) + path_part(url_path(s)) + (
            if kept.len() == 0 {
                Seq::empty()
            } else {
                seq!['?'] + join_pairs(kept)
            })
        },
    }
}

/// The canonical string of a parseable URL with a host: a domain rule's
/// output when one applies, the generic pipeline's output otherwise.
pub open spec fn canonical_seq(n: NormView, s: Seq<char>) -> Seq<char> {
    match find_rule(n.rules, url_domain(s)) {
        Some(r) => rule_canonical(n.config, r, s),
        None => generic_canonical(n.config, n.tracking, s),
    }
}

/// The default tracking-parameter names.
pub open spec fn default_tracking() -> Seq<Seq<char>> {
    seq![
        "utm_source"@,
        "utm_medium"@,
        "utm_campaign"@,
        "utm_content"@,
        "utm_term"@,
        "fbclid"@,
        "gclid"@,
        "msclkid"@,
        "_ga"@,
        "_gl"@,
        "mc_cid"@,
        "mc_eid"@,
        "ref"@,
        "referrer"@,
    ]
}

impl UrlNormalizer {
    /// A normalizer with every flag on, the default tracking parameters and
    /// no domain rules.
    pub fn new() -> (n: UrlNormalizer)
        ensures
            n@.config == default_config(),
            n@.tracking == default_tracking(),
            n@.rules.len() == 0,
    {
        Self::with_config(
            NormalizerConfig {
                lowercase_scheme: true,
                remove_www: true,
                remove_default_port: true,
                sort_query_params: true,
                remove_fragment: true,
                lowercase_hostname: true,
            },
        )
    }

    /// A normalizer with the given flags, the default tracking parameters
    /// and no domain rules.
    pub fn with_config(config: NormalizerConfig) -> (n: UrlNormalizer)
        ensures
            n@.config == config,
            n@.tracking == default_tracking(),
            n@.rules.len() == 0,
    {
        let mut t: Vec<Vec<char>> = Vec::new();
        t.push(str_to_chars("utm_source"));
        t.push(str_to_chars("utm_medium"));
        t.push(str_to_chars("utm_campaign"));
        t.push(str_to_chars("utm_content"));
        t.push(str_to_chars("utm_term"));
        t.push(str_to_chars("fbclid"));
        t.push(str_to_chars("gclid"));
        t.push(str_to_chars("msclkid"));
        t.push(str_to_chars("_ga"));
        t.push(str_to_chars("_gl"));
        t.push(str_to_chars("mc_cid"));
        t.push(str_to_chars("mc_eid"));
        t.push(str_to_chars("ref"));
        t.push(str_to_chars("referrer"));
        let n = UrlNormalizer { tracking_params: t, domain_rules: Vec::new(), config };
        assert(n@.tracking =~= default_tracking());
        assert(n@.rules =~= Seq::<(Seq<char>, RuleV)>::empty());
        n
    }

    /// Adds one more query-parameter name to remove during normalization.
    pub fn add_tracking_param(&mut self, param: &str)
        ensures
            final(self)@.tracking == old(self)@.tracking.push(param@),
            final(self)@.rules == old(self)@.rules,
            final(self)@.config == old(self)@.config,
    {
        self.tracking_params.push(str_to_chars(param));
        assert(self@.tracking =~= old(self)@.tracking.push(param@));
        assert(self@.rules =~= old(self)@.rules);
    }

    /// Registers a domain rule under `domain`, replacing any rule
    /// previously registered under the same key; rules for other domains,
    /// the tracking set and the flags are untouched. A URL is canonicalized
    /// by the rule registered under its domain — or, for a domain with a
    /// leading `www.`, the rule registered under the domain without that
    /// prefix, when the full domain carries none.
    pub fn add_domain_rule(&mut self, domain: &str, rule: DomainRule)
        ensures
            final(self)@.rules == remove_rules_for(old(self)@.rules, domain@).push(
                (domain@, rule@),
            ),
            find_rule(final(self)@.rules, Some(domain@)) == Some(rule@),
            final(self)@.tracking == old(self)@.tracking,
            final(self)@.config == old(self)@.config,
    {
        let ghost rv = rule@;
        let ghost oldv = self@.rules;
        let ghost d = domain@;
        let key = str_to_chars(domain);
        let mut kept: Vec<(Vec<char>, DomainRule)> = Vec::new();
        proof {
            assert(kept@.map_values(|e: (Vec<char>, DomainRule)| (e.0@, e.1@)) =~= Seq::<
                (Seq<char>, RuleV),
            >::empty());
        }
        while self.domain_rules.len() > 0
            invariant
                key@ == d,
                self@.tracking == old(self)@.tracking,
                self@.config == old(self)@.config,
                remove_rules_for(oldv, d) =~= kept@.map_values(
                    |e: (Vec<char>, DomainRule)| (e.0@, e.1@),
                ) + remove_rules_for(self@.rules, d),
            decreases self.domain_rules@.len(),
        {
            let ghost remaining = self@.rules;
            let ghost keptv = kept@.map_values(|e: (Vec<char>, DomainRule)| (e.0@, e.1@));
            let entry = self.domain_rules.remove(0);
            proof {
                assert(remaining[0] == (entry.0@, entry.1@));
                assert(self@.rules =~= remaining.drop_first());
            }
            if !eq_chars(&entry.0, &key) {
                let ghost ev = (entry.0@, entry.1@);
                kept.push(entry);
                proof {
                    assert(kept@.map_values(|e: (Vec<char>, DomainRule)| (e.0@, e.1@)) =~= keptv.push(
                        ev,
                    ));
                    assert(keptv.push(ev) =~= keptv + seq![ev]);
                }
            }
            proof {
                assert(remove_rules_for(oldv, d) =~= kept@.map_values(
                    |e: (Vec<char>, DomainRule)| (e.0@, e.1@),
                ) + remove_rules_for(self@.rules, d));
            }
        }
        proof {
            assert(remove_rules_for(self@.rules, d) =~= Seq::<(Seq<char>, RuleV)>::empty());
            assert(kept@.map_values(|e: (Vec<char>, DomainRule)| (e.0@, e.1@)) =~= remove_rules_for(
                oldv,
                d,
            ));
        }
        kept.push((key, rule));
        self.domain_rules = kept;
        proof {
            assert(self@.rules =~= remove_rules_for(oldv, d).push((d, rv)));
            lemma_remove_rules_pass(oldv, d);
            lemma_find_exact_appended(remove_rules_for(oldv, d), d, rv);
            assert(self@.tracking =~= old(self)@.tracking);
        }
    }

    /// Canonicalizes a raw URL.
    ///
    /// Fails with [`ParseError::Syntax`] exactly when the parser rejects the
    /// input, and with [`ParseError::MissingHost`] exactly when the input
    /// parses but has no host; otherwise returns exactly the canonical
    /// string [`canonical_seq`] describes.
    pub fn normalize(&self, input: &str) -> (r: Result<String, ParseError>)
        ensures
            r is Ok <==> (url_parses(input@) && url_host(input@) is Some),
            r matches Ok(c) ==> c@ == canonical_seq(self@, input@),
            !url_parses(input@) ==> r == Err::<String, ParseError>(ParseError::Syntax),
            url_parses(input@) && url_host(input@) is None ==> r == Err::<String, ParseError>(
                ParseError::MissingHost,
            ),
    {
        let p = match parse_url(input) {
            Some(p) => p,
            None => {
                return Err(ParseError::Syntax);
            },
        };
        let ParsedUrl { scheme, host, port, path, has_query, pairs, domain, fragment } = p;
        let host = match host {
            Some(h) => h,
            None => {
                return Err(ParseError::MissingHost);
            },
        };
        let rule_idx = self.find_rule_exec(&domain);
        match rule_idx {
            Some(i) => {
                let ghost rv = self@.rules[i as int].1;
                let out = match &self.domain_rules[i].1 {
                    DomainRule::Fixed(c) => {
                        let out = crate::chars::copy_chars(c);
                        assert(out@ =~= rule_canonical(self@.config, rv, input@));
                        out
                    },
                    DomainRule::KeepParams(names) => {
                        let mut out = self.emit_base(&scheme, &host, port, &path);
                        let ghost base = out@;
                        let kept = filter_pairs_exec(names, true, pairs);
                        let ghost keptv = pairs_view(kept@);
                        if kept.len() > 0 {
                            out.push('?');
                            append_joined(&mut out, &kept);
                            assert(out@ =~= base + (seq!['?'] + join_pairs(keptv)));
                        }
                        assert(out@ =~= rule_canonical(self@.config, rv, input@));
                        out
                    },
                };
                assert(out@ =~= canonical_seq(self@, input@));
                Ok(chars_to_string(&out))
            },
            None => {
                let mut out = self.emit_base(&scheme, &host, port, &path);
                let ghost base = out@;
                if has_query {
                    let kept = filter_pairs_exec(&self.tracking_params, false, pairs);
                    let ghost keptv = pairs_view(kept@);
                    if kept.len() > 0 {
                        let emitted = if self.config.sort_query_params {
                            sort_pairs_exec(kept)
                        } else {
                            kept
                        };
                        out.push('?');
                        append_joined(&mut out, &emitted);
                        assert(out@ =~= base + (seq!['?'] + join_pairs(
                            if self@.config.sort_query_params {
                                sort_pairs(keptv)
                            } else {
                                keptv
                            },
                        )));
                    }
                }
                assert(out@ =~= base + query_part(
                    self@.config,
                    self@.tracking,
                    url_has_query(input@),
                    url_pairs(input@),
                ));
                let ghost with_query = out@;
                if !self.config.remove_fragment {
                    match &fragment {
                        Some(f) => {
                            out.push('#');
                            append_chars(&mut out, f);
                            assert(out@ =~= with_query + (seq!['#'] + f@));
                        },
                        None => {},
                    }
                }
                assert(out@ =~= generic_canonical(self@.config, self@.tracking, input@));
                assert(out@ =~= canonical_seq(self@, input@));
                Ok(chars_to_string(&out))
            },
        }
    }

    /// Emits `scheme://host` with the optional port and the path, each
    /// canonicalized by its `*_part` rule.
    fn emit_base(&self, scheme: &Vec<char>, host: &Vec<char>, port: Option<u16>, path: &Vec<
        char,
    >) -> (out: Vec<char>)
        ensures
            out@ == scheme_part(self@.config, scheme@) + seq![':', '/', '/'] + host_part(
                self@.config,
                host@,
            ) + port_part(self@.config, scheme@, port) + path_part(path@),
    {
        let mut out: Vec<char>;
        if self.config.lowercase_scheme {
            out = lower_chars(scheme);
        } else {
            out = crate::chars::copy_chars(scheme);
        }
        out.push(':');
        out.push('/');
        out.push('/');
        let ghost head = scheme_part(self@.config, scheme@) + seq![':', '/', '/'];
        assert(out@ =~= head);
        let mut h = if self.config.lowercase_hostname {
            lower_chars(host)
        } else {
            crate::chars::copy_chars(host)
        };
        let ghost h0 = if self@.config.lowercase_hostname {
            lower_seq(host@)
        } else {
            host@
        };
        assert(h@ =~= h0);
        if self.config.remove_www && starts_with_www(&h) {
            h = suffix_chars(&h, 4);
            assert(h@ =~= h0.skip(4));
        }
        assert(h@ =~= host_part(self@.config, host@));
        append_chars(&mut out, &h);
        assert(out@ =~= head + host_part(self@.config, host@));
        match port {
            Some(pt) => {
                let is_def = is_default_port_exec(scheme, pt);
                if !(self.config.remove_default_port && is_def) {
                    out.push(':');
                    let digits = u16_to_chars(pt);
                    append_chars(&mut out, &digits);
                    assert(out@ =~= head + host_part(self@.config, host@) + (seq![':']
                        + dec_chars(pt as nat)));
                }
            },
            None => {},
        }
        let ghost mid = head + host_part(self@.config, host@) + port_part(
            self@.config,
            scheme@,
            port,
        );
        assert(out@ =~= mid);
        if path.len() == 1 && path[0] == '/' {
            assert(path@ =~= seq!['/']);
            out.push('/');
        } else {
            assert(path@ != seq!['/']) by {
                if path@ == seq!['/'] {
                    assert(path@.len() == 1 && path@[0] == '/');
                }
            }
            let trimmed = trim_slashes(path);
            append_chars(&mut out, &trimmed);
        }
        assert(out@ =~= mid + path_part(path@));
        out
    }

    /// Looks up the rule governing the URL's domain.
    fn find_rule_exec(&self, domain: &Option<Vec<char>>) -> (r: Option<usize>)
        ensures
            match r {
                Some(i) => i < self@.rules.len() && find_rule(self@.rules, opt_view(*domain))
                    == Some(self@.rules[i as int].1),
                None => find_rule(self@.rules, opt_view(*domain)) is None,
            },
    {
        let d = match domain {
            Some(d) => d,
            None => {
                return None;
            },
        };
        match self.find_exact_idx(d) {
            Some(i) => Some(i),
            None => {
                if starts_with_www(d) {
                    let stripped = suffix_chars(d, 4);
                    self.find_exact_idx(&stripped)
                } else {
                    None
                }
            },
        }
    }

    /// The index of the rule registered under exactly the key `d`.
    fn find_exact_idx(&self, d: &Vec<char>) -> (r: Option<usize>)
        ensures
            match r {
                Some(i) => i < self@.rules.len() && find_exact(self@.rules, d@) == Some(
                    self@.rules[i as int].1,
                ),
                None => find_exact(self@.rules, d@) is None,
            },
    {
        let n = self.domain_rules.len();
        let mut i: usize = 0;
        assert(self@.rules.skip(0) =~= self@.rules);
        while i < n
            invariant
                n == self@.rules.len(),
                i <= n,
                find_exact(self@.rules, d@) == find_exact(self@.rules.skip(i as int), d@),
            decreases n - i,
        {
            assert(self@.rules.skip(i as int)[0] == self@.rules[i as int]);
            if eq_chars(&self.domain_rules[i].0, d) {
                assert(self@.rules[i as int].0 == d@);
                return Some(i);
            }
            assert(self@.rules[i as int].0 != d@);
            assert(self@.rules.skip(i as int).drop_first() =~= self@.rules.skip(i + 1));
            i = i + 1;
        }
        assert(self@.rules.skip(n as int).len() == 0);
        None
    }
}

/// Decides [`is_default_port`].
fn is_default_port_exec(scheme: &Vec<char>, p: u16) -> (r: bool)
    ensures
        r == is_default_port(scheme@, p),
{
    let is_http = scheme.len() == 4 && scheme[0] == 'h' && scheme[1] == 't' && scheme[2] == 't'
        && scheme[3] == 'p';
    let is_https = scheme.len() == 5 && scheme[0] == 'h' && scheme[1] == 't' && scheme[2] == 't'
        && scheme[3] == 'p' && scheme[4] == 's';
    proof {
        if is_http {
            assert(scheme@ =~= http_scheme());
        } else {
            assert(scheme@ != http_scheme()) by {
                if scheme@ == http_scheme() {
                    assert(scheme@.len() == 4 && scheme@[0] == 'h' && scheme@[1] == 't'
                        && scheme@[2] == 't' && scheme@[3] == 'p');
                }
            }
        }
        if is_https {
            assert(scheme@ =~= https_scheme());
        } else {
            assert(scheme@ != https_scheme()) by {
                if scheme@ == https_scheme() {
                    assert(scheme@.len() == 5 && scheme@[0] == 'h' && scheme@[1] == 't'
                        && scheme@[2] == 't' && scheme@[3] == 'p' && scheme@[4] == 's');
                }
            }
        }
    }
    (is_http && p == 80) || (is_https && p == 443)
}

/// Decides [`name_listed`].
fn name_listed_exec(names: &Vec<Vec<char>>, k: &Vec<char>) -> (r: bool)
    ensures
        r == name_listed(names@.map_values(|n: Vec<char>| n@), k@),
{
    let ghost nv = names@.map_values(|n: Vec<char>| n@);
    let n = names.len();
    let mut i: usize = 0;
    while i < n
        invariant
            n == names@.len(),
            i <= n,
            nv == names@.map_values(|m: Vec<char>| m@),
            forall|j: int| 0 <= j < i ==> nv[j] != k@,
        decreases n - i,
    {
        if eq_chars(&names[i], k) {
            assert(nv[i as int] == k@);
            return true;
        }
        i = i + 1;
    }
    assert(!name_listed(nv, k@));
    false
}

/// Filters query pairs by listed-name membership, realizing [`filter_pairs`].
fn filter_pairs_exec(names: &Vec<Vec<char>>, keep_named: bool, ps: Vec<(Vec<char>, Vec<char>)>) -> (r:
    Vec<(Vec<char>, Vec<char>)>)
    ensures
        pairs_view(r@) == filter_pairs(
            names@.map_values(|n: Vec<char>| n@),
            keep_named,
            pairs_view(ps@),
        ),
{
    let ghost nv = names@.map_values(|n: Vec<char>| n@);
    let ghost full = pairs_view(ps@);
    let mut rest = ps;
    let mut out: Vec<(Vec<char>, Vec<char>)> = Vec::new();
    proof {
        assert(pairs_view(out@) =~= Seq::<(Seq<char>, Seq<char>)>::empty());
        assert(pairs_view(rest@) =~= full);
    }
    while rest.len() > 0
        invariant
            nv == names@.map_values(|m: Vec<char>| m@),
            filter_pairs(nv, keep_named, full) =~= pairs_view(out@) + filter_pairs(
                nv,
                keep_named,
                pairs_view(rest@),
            ),
        decreases rest@.len(),
    {
        let ghost old_rest = pairs_view(rest@);
        let p = rest.remove(0);
        proof {
            assert(old_rest[0] == (p.0@, p.1@));
            assert(pairs_view(rest@) =~= old_rest.drop_first());
        }
        let listed = name_listed_exec(names, &p.0);
        let ghost old_out = pairs_view(out@);
        if listed == keep_named {
            out.push(p);
            proof {
                assert(pairs_view(out@) =~= old_out.push((old_rest[0].0, old_rest[0].1)));
                assert(old_out.push(old_rest[0]) =~= old_out + seq![old_rest[0]]);
            }
        }
        proof {
            assert(filter_pairs(nv, keep_named, old_rest) == (
            if name_listed(nv, old_rest[0].0) == keep_named {
                seq![old_rest[0]] + filter_pairs(nv, keep_named, old_rest.drop_first())
            } else {
                filter_pairs(nv, keep_named, old_rest.drop_first())
            }));
            assert(filter_pairs(nv, keep_named, full) =~= pairs_view(out@) + filter_pairs(
                nv,
                keep_named,
                pairs_view(rest@),
            ));
        }
    }
    proof {
        assert(pairs_view(rest@).len() == 0);
        assert(filter_pairs(nv, keep_named, pairs_view(rest@)) =~= Seq::<(
            Seq<char>,
            Seq<char>,
        )>::empty());
        assert(pairs_view(out@) =~= filter_pairs(nv, keep_named, full));
    }
    out
}

/// Appends `k1=v1&k2=v2&…` for all of `ps`.
fn append_joined(out: &mut Vec<char>, ps: &Vec<(Vec<char>, Vec<char>)>)
    ensures
        final(out)@ == old(out)@ + join_pairs(pairs_view(ps@)),
{
    let n = ps.len();
    let mut i: usize = 0;
    proof {
        assert(pairs_view(ps@).take(0) =~= Seq::<(Seq<char>, Seq<char>)>::empty());
    }
    while i < n
        invariant
            n == ps@.len(),
            i <= n,
            out@ =~= old(out)@ + join_pairs(pairs_view(ps@).take(i as int)),
        decreases n - i,
    {
        if i > 0 {
            out.push('&');
        }
        append_chars_pair(out, &ps[i].0, &ps[i].1);
        proof {
            let pv = pairs_view(ps@);
            assert(pv.take(i + 1) =~= pv.take(i as int).push(pv[i as int]));
            lemma_join_push(pv.take(i as int), pv[i as int]);
            assert(pv[i as int] == (ps@[i as int].0@, ps@[i as int].1@));
        }
        i = i + 1;
    }
    proof {
        assert(pairs_view(ps@).take(n as int) =~= pairs_view(ps@));
    }
}

/// Appends `k=v`.
fn append_chars_pair(out: &mut Vec<char>, k: &Vec<char>, v: &Vec<char>)
    ensures
        final(out)@ == old(out)@ + pair_chars((k@, v@)),
{
    append_chars(out, k);
    out.push('=');
    append_chars(out, v);
    assert(out@ =~= old(out)@ + (k@ + seq!['='] + v@));
}

} // verus!
