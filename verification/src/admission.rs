//! The admission engine: evaluates every image reference of a pod spec, in
//! order, and aggregates the per-image verdicts into one.
//!
//! A raw reference that fails to parse is an automatic deny, never an error:
//! a malformed image reference is an expected admission-denial case. The
//! engine short-circuits on the first denial, whose reason is surfaced.

use vstd::prelude::*;

use crate::containment::{classify, spec_classify, RegistryProxiesConfig, ServerIdentity};
use crate::image::{parse, spec_parse};
use crate::policy::{
    evaluate, spec_evaluate, AdmissionVerdict, ImageValidationConfig, VerdictData,
};

verus! {

/// The admission engine: this registry's identity, its proxy configuration,
/// and the admission policy, all fixed at construction.
pub struct AdmissionEngine {
    pub identity: ServerIdentity,
    pub proxies: RegistryProxiesConfig,
    pub policy: ImageValidationConfig,
}

/// Reason attached to a reference that does not parse.
pub open spec fn invalid_reason(raw: Seq<char>) -> Seq<char> {
    "Invalid image reference: "@ + raw
}

/// Reason when every image of a pod spec is allowed.
pub open spec fn success_reason() -> Seq<char> {
    "All images are allowed"@
}

/// The verdict for one raw reference string: parse, classify, evaluate; a
/// parse failure is a deny naming the raw string.
pub open spec fn spec_image_verdict(e: AdmissionEngine, raw: Seq<char>) -> VerdictData {
    match spec_parse(raw) {
        Some(m) => spec_evaluate(m, spec_classify(e.identity, e.proxies, m), e.policy),
        None => VerdictData { allowed: false, reason: invalid_reason(raw) },
    }
}

/// The verdict for a whole pod spec: the first denial in order, or a generic
/// success verdict when every image is allowed (vacuously for an empty list).
pub open spec fn spec_pod_verdict(e: AdmissionEngine, images: Seq<Seq<char>>) -> VerdictData
    decreases images.len(),
{
    if images.len() == 0 {
        VerdictData { allowed: true, reason: success_reason() }
    } else {
        let v = spec_image_verdict(e, images[0]);
        if !v.allowed {
            v
        } else {
            spec_pod_verdict(e, images.skip(1))
        }
    }
}

/// The views of a list of raw reference strings.
pub open spec fn images_of(v: Seq<String>) -> Seq<Seq<char>> {
    v.map_values(|s: String| s@)
}

impl AdmissionEngine {
    /// Builds an engine from this registry's identity, proxy configuration
    /// and policy.
    pub fn new(
        identity: ServerIdentity,
        proxies: RegistryProxiesConfig,
        policy: ImageValidationConfig,
    ) -> (e: AdmissionEngine)
        ensures
            e.identity == identity,
            e.proxies == proxies,
            e.policy == policy,
    {
        AdmissionEngine { identity, proxies, policy }
    }

    /// Evaluates one raw image reference string.
    pub fn evaluate_image(&self, raw: &str) -> (v: AdmissionVerdict)
        ensures
            v@ == spec_image_verdict(*self, raw@),
    {
        match parse(raw) {
            Ok(img) => {
                let containment = classify(&self.identity, &self.proxies, &img);
                evaluate(&img, &containment, &self.policy)
            },
            Err(_) => {
                let mut r = String::from_str("Invalid image reference: ");
                r.append(raw);
                AdmissionVerdict { allowed: false, reason: r }
            },
        }
    }

    /// Evaluates every image of a pod spec, in order, and returns the first
    /// denial, or a success verdict when all are allowed.
    pub fn evaluate_pod_spec(&self, images: &Vec<String>) -> (v: AdmissionVerdict)
        ensures
            v@ == spec_pod_verdict(*self, images_of(images@)),
    {
        let ghost imgs = images_of(images@);
        proof {
            assert(imgs.skip(0) =~= imgs);
        }
        let n = images.len();
        let mut i: usize = 0;
        while i < n
            invariant
                i <= n,
                n == images@.len(),
                imgs == images_of(images@),
                imgs.len() == images@.len(),
                spec_pod_verdict(*self, imgs) == spec_pod_verdict(*self, imgs.skip(i as int)),
            decreases n - i,
        {
            proof {
                assert(imgs.skip(i as int)[0] == imgs[i as int]);
                assert(imgs[i as int] == images@[i as int]@);
            }
            let v = self.evaluate_image(images[i].as_str());
            if !v.allowed {
                return v;
            }
            proof {
                assert(imgs.skip(i as int).skip(1) =~= imgs.skip(i + 1));
            }
            i += 1;
        }
        proof {
            assert(imgs.skip(n as int) =~= Seq::<Seq<char>>::empty());
        }
        AdmissionVerdict { allowed: true, reason: String::from_str("All images are allowed") }
    }
}

// ---------------------------------------------------------------------------
// Laws
// ---------------------------------------------------------------------------

/// Aggregation short-circuits: when every image before position `i` is
/// allowed and the image at `i` is denied, the pod verdict is exactly the
/// verdict of the image at `i`.
pub proof fn lemma_first_denial_wins(e: AdmissionEngine, images: Seq<Seq<char>>, i: int)
    requires
        0 <= i < images.len(),
        forall|j: int| 0 <= j < i ==> spec_image_verdict(e, images[j]).allowed,
        !spec_image_verdict(e, images[i]).allowed,
    ensures
        spec_pod_verdict(e, images) == spec_image_verdict(e, images[i]),
    decreases i,
{
    if i > 0 {
        lemma_first_denial_wins(e, images.skip(1), i - 1);
    }
}

/// When every image of the pod spec is allowed, the pod verdict is the
/// generic success verdict.
pub proof fn lemma_all_allowed(e: AdmissionEngine, images: Seq<Seq<char>>)
    requires
        forall|j: int| 0 <= j < images.len() ==> spec_image_verdict(e, images[j]).allowed,
    ensures
        spec_pod_verdict(e, images) == (VerdictData { allowed: true, reason: success_reason() }),
    decreases images.len(),
{
    if images.len() > 0 {
        lemma_all_allowed(e, images.skip(1));
    }
}

} // verus!
