//! The layered allow/deny admission policy.
//!
//! Patterns are matched against the normalized reference,
//! `host[:port]/repository`, never against tag or digest. A pattern is a
//! sequence of slash-separated segments matched against a prefix of the
//! reference's segments; a segment written `*` matches any one segment, and a
//! segment containing `*` is compared part by part on its dots, with `*`
//! matching any one part. Precedence: local containment allows; then a
//! deny-list match denies; then an allow-list match allows; then the default
//! action decides.

use vstd::prelude::*;

use crate::containment::Containment;
use crate::image::{
    canon_of, find_char, first_index_of, norm_of, str_eq, ImageReference, RefData,
};

verus! {

/// The policy's default verdict when no pattern matches.
#[derive(Clone, Copy, Debug, PartialEq, Eq, Structural)]
pub enum Action {
    Allow,
    Deny,
}

/// The admission policy: a default action and ordered allow and deny pattern
/// lists.
pub struct ImageValidationConfig {
    pub default_action: Action,
    pub allow_patterns: Vec<String>,
    pub deny_patterns: Vec<String>,
}

// ---------------------------------------------------------------------------
// Pattern matching
// ---------------------------------------------------------------------------

/// A dot-separated part matches if the pattern part is `*` or equal.
pub open spec fn part_match(p: Seq<char>, s: Seq<char>) -> bool {
    p == seq!['*'] || p == s
}

/// Dot-wise comparison of one segment: the same number of parts, each
/// matching.
pub open spec fn dotted_match(p: Seq<char>, s: Seq<char>) -> bool
    decreases p.len(),
{
    let pi = first_index_of(p, '.');
    let si = first_index_of(s, '.');
    if 0 <= pi && pi < p.len() {
        &&& 0 <= si && si < s.len()
        &&& part_match(p.take(pi), s.take(si))
        &&& dotted_match(p.skip(pi + 1), s.skip(si + 1))
    } else {
        si == s.len() && part_match(p, s)
    }
}

/// One slash-separated segment: `*` matches anything; a pattern with a `*`
/// inside is compared dot-wise; anything else must be equal.
pub open spec fn seg_match(p: Seq<char>, s: Seq<char>) -> bool {
    if p == seq!['*'] {
        true
    } else if p.contains('*') {
        dotted_match(p, s)
    } else {
        p == s
    }
}

/// Segment-wise prefix match of a pattern against a normalized reference.
pub open spec fn glob_match(p: Seq<char>, s: Seq<char>) -> bool
    decreases p.len(),
{
    let pi = first_index_of(p, '/');
    let si = first_index_of(s, '/');
    if 0 <= pi && pi < p.len() {
        &&& 0 <= si && si < s.len()
        &&& seg_match(p.take(pi), s.take(si))
        &&& glob_match(p.skip(pi + 1), s.skip(si + 1))
    } else {
        seg_match(
            p,
            if 0 <= si && si < s.len() {
                s.take(si)
            } else {
                s
            },
        )
    }
}

/// The views of a list of pattern strings.
pub open spec fn patterns_of(v: Seq<String>) -> Seq<Seq<char>> {
    v.map_values(|x: String| x@)
}

/// Some pattern in the list matches.
pub open spec fn matches_any(patterns: Seq<Seq<char>>, s: Seq<char>) -> bool {
    exists|i: int| 0 <= i < patterns.len() && glob_match(patterns[i], s)
}

fn part_match_str(p: &str, s: &str) -> (r: bool)
    ensures
        r == part_match(p@, s@),
{
    let pn = p.unicode_len();
    if pn == 1 && p.get_char(0) == '*' {
        proof {
            assert(p@ =~= seq!['*']);
        }
        return true;
    }
    proof {
        if p@ == seq!['*'] {
            assert(p@.len() == 1 && p@[0] == '*');
        }
    }
    str_eq(p, s)
}

fn dotted_match_str(p: &str, s: &str) -> (r: bool)
    ensures
        r == dotted_match(p@, s@),
    decreases p@.len(),
{
    let pn = p.unicode_len();
    let sn = s.unicode_len();
    let pi = find_char(p, '.');
    let si = find_char(s, '.');
    if pi < pn {
        if si < sn {
            let ph = p.substring_char(0, pi);
            let sh = s.substring_char(0, si);
            proof {
                assert(ph@ =~= p@.take(pi as int));
                assert(sh@ =~= s@.take(si as int));
            }
            if !part_match_str(ph, sh) {
                return false;
            }
            let pt = p.substring_char(pi + 1, pn);
            let st = s.substring_char(si + 1, sn);
            proof {
                assert(pt@ =~= p@.skip(pi + 1));
                assert(st@ =~= s@.skip(si + 1));
            }
            dotted_match_str(pt, st)
        } else {
            false
        }
    } else {
        if si < sn {
            false
        } else {
            part_match_str(p, s)
        }
    }
}

fn seg_match_str(p: &str, s: &str) -> (r: bool)
    ensures
        r == seg_match(p@, s@),
{
    let pn = p.unicode_len();
    if pn == 1 && p.get_char(0) == '*' {
        proof {
            assert(p@ =~= seq!['*']);
        }
        return true;
    }
    proof {
        if p@ == seq!['*'] {
            assert(p@.len() == 1 && p@[0] == '*');
        }
    }
    let st = find_char(p, '*');
    if st < pn {
        dotted_match_str(p, s)
    } else {
        proof {
            assert(!p@.contains('*'));
        }
        str_eq(p, s)
    }
}

/// Matches one pattern against a normalized reference string.
pub fn glob_match_str(p: &str, s: &str) -> (r: bool)
    ensures
        r == glob_match(p@, s@),
    decreases p@.len(),
{
    let pn = p.unicode_len();
    let sn = s.unicode_len();
    let pi = find_char(p, '/');
    let si = find_char(s, '/');
    if pi < pn {
        if si < sn {
            let ph = p.substring_char(0, pi);
            let sh = s.substring_char(0, si);
            proof {
                assert(ph@ =~= p@.take(pi as int));
                assert(sh@ =~= s@.take(si as int));
            }
            if !seg_match_str(ph, sh) {
                return false;
            }
            let pt = p.substring_char(pi + 1, pn);
            let st = s.substring_char(si + 1, sn);
            proof {
                assert(pt@ =~= p@.skip(pi + 1));
                assert(st@ =~= s@.skip(si + 1));
            }
            glob_match_str(pt, st)
        } else {
            false
        }
    } else {
        if si < sn {
            let sh = s.substring_char(0, si);
            proof {
                assert(sh@ =~= s@.take(si as int));
            }
            seg_match_str(p, sh)
        } else {
            seg_match_str(p, s)
        }
    }
}

/// Matches a list of patterns against a normalized reference string.
pub fn matches_any_str(patterns: &Vec<String>, target: &str) -> (r: bool)
    ensures
        r == matches_any(patterns_of(patterns@), target@),
{
    let n = patterns.len();
    let mut i: usize = 0;
    while i < n
        invariant
            i <= n,
            n == patterns@.len(),
            forall|j: int| 0 <= j < i ==> !glob_match(patterns_of(patterns@)[j], target@),
        decreases n - i,
    {
        if glob_match_str(patterns[i].as_str(), target) {
            proof {
                assert(patterns_of(patterns@)[i as int] == patterns@[i as int]@);
            }
            return true;
        }
        proof {
            assert(patterns_of(patterns@)[i as int] == patterns@[i as int]@);
        }
        i += 1;
    }
    false
}

// ---------------------------------------------------------------------------
// Verdicts
// ---------------------------------------------------------------------------

/// Mathematical model of a verdict.
pub struct VerdictData {
    pub allowed: bool,
    pub reason: Seq<char>,
}

/// The outcome of evaluating one image (or a whole pod spec): a decision and
/// a human-readable reason.
#[derive(Clone, Debug, PartialEq, Eq)]
pub struct AdmissionVerdict {
    pub allowed: bool,
    pub reason: String,
}

impl View for AdmissionVerdict {
    type V = VerdictData;

    open spec fn view(&self) -> VerdictData {
        VerdictData { allowed: self.allowed, reason: self.reason@ }
    }
}

/// Reason for an image hosted by this registry.
pub open spec fn local_reason() -> Seq<char> {
    "Image is hosted by this registry"@
}

/// Reason for a deny-list match.
pub open spec fn denied_reason(m: RefData) -> Seq<char> {
    "Image "@ + canon_of(m) + " explicitly denied"@
}

/// Reason for an allow-list match.
pub open spec fn allowed_reason(m: RefData) -> Seq<char> {
    "Image "@ + canon_of(m) + " explicitly allowed"@
}

/// Reason when the default action allows.
pub open spec fn default_allow_reason() -> Seq<char> {
    "Image allowed by default policy"@
}

/// Reason when the default action denies.
pub open spec fn default_deny_reason(m: RefData) -> Seq<char> {
    "Remote image "@ + canon_of(m)
        + " disallowed as not contained in this registry and not in allow list"@
}

/// The policy, as a mathematical function: local containment allows
/// unconditionally; otherwise the deny list, then the allow list, then the
/// default action decide, each against the normalized reference.
pub open spec fn spec_evaluate(
    m: RefData,
    c: Containment,
    cfg: ImageValidationConfig,
) -> VerdictData {
    if c is Local {
        VerdictData { allowed: true, reason: local_reason() }
    } else if matches_any(patterns_of(cfg.deny_patterns@), norm_of(m)) {
        VerdictData { allowed: false, reason: denied_reason(m) }
    } else if matches_any(patterns_of(cfg.allow_patterns@), norm_of(m)) {
        VerdictData { allowed: true, reason: allowed_reason(m) }
    } else if cfg.default_action is Allow {
        VerdictData { allowed: true, reason: default_allow_reason() }
    } else {
        VerdictData { allowed: false, reason: default_deny_reason(m) }
    }
}

/// Evaluates the policy for one parsed reference and its containment.
pub fn evaluate(
    reference: &ImageReference,
    containment: &Containment,
    config: &ImageValidationConfig,
) -> (v: AdmissionVerdict)
    ensures
        v@ == spec_evaluate(reference@, *containment, *config),
{
    if let Containment::Local = containment {
        return AdmissionVerdict {
            allowed: true,
            reason: String::from_str("Image is hosted by this registry"),
        };
    }
    let norm = reference.normalized_string();
    if matches_any_str(&config.deny_patterns, norm.as_str()) {
        let mut r = String::from_str("Image ");
        let cs = reference.canonical_string();
        r.append(cs.as_str());
        r.append(" explicitly denied");
        proof {
            assert(r@ =~= denied_reason(reference@));
        }
        AdmissionVerdict { allowed: false, reason: r }
    } else if matches_any_str(&config.allow_patterns, norm.as_str()) {
        let mut r = String::from_str("Image ");
        let cs = reference.canonical_string();
        r.append(cs.as_str());
        r.append(" explicitly allowed");
        proof {
            assert(r@ =~= allowed_reason(reference@));
        }
        AdmissionVerdict { allowed: true, reason: r }
    } else {
        match config.default_action {
            Action::Allow => AdmissionVerdict {
                allowed: true,
                reason: String::from_str("Image allowed by default policy"),
            },
            Action::Deny => {
                let mut r = String::from_str("Remote image ");
                let cs = reference.canonical_string();
                r.append(cs.as_str());
                r.append(" disallowed as not contained in this registry and not in allow list");
                proof {
                    assert(r@ =~= default_deny_reason(reference@));
                }
                AdmissionVerdict { allowed: false, reason: r }
            },
        }
    }
}

// ---------------------------------------------------------------------------
// Laws
// ---------------------------------------------------------------------------

/// Local containment always allows, with the hosting reason, whatever the
/// configured patterns and default say.
pub proof fn lemma_local_precedence(m: RefData, cfg: ImageValidationConfig)
    ensures
        spec_evaluate(m, Containment::Local, cfg).allowed,
        spec_evaluate(m, Containment::Local, cfg).reason == local_reason(),
{
}

/// Two references differing only in tag and digest receive the same decision
/// under the same containment and configuration.
pub proof fn lemma_verdict_tag_insensitive(
    m1: RefData,
    m2: RefData,
    c: Containment,
    cfg: ImageValidationConfig,
)
    requires
        m1.host == m2.host,
        m1.port == m2.port,
        m1.repo == m2.repo,
    ensures
        spec_evaluate(m1, c, cfg).allowed == spec_evaluate(m2, c, cfg).allowed,
{
    assert(norm_of(m1) == norm_of(m2));
}

} // verus!
