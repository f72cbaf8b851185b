//! Domain normalization: reducing a hostname to its registrable domain
//! `<domain>.<suffix>` against public-suffix data.
//!
//! The classification itself is an outside capability; this module states
//! its outcome as an uninterpreted function of the suffix data and the
//! host, and verifies everything downstream of it: which hosts produce an
//! output line, and exactly what that line is.

use vstd::prelude::*;
use vstd::string::StringExecFns;

verus! {

#[verifier::external_type_specification]
#[verifier::external_body]
pub struct ExTldExtractor(tldextract::TldExtractor);

/// The public-suffix data a `TldExtractor` holds, as the set of suffix
/// rules it matches hosts against.
pub uninterp spec fn suffix_data(ext: tldextract::TldExtractor) -> Set<Seq<char>>;

/// What `TldExtractor::extract` returns for a host, given the extractor's
/// suffix data: `None` for a failure, otherwise the optional domain and
/// optional suffix parts. The outcome is a function of the suffix data and
/// the host alone.
pub uninterp spec fn psl_parts(tlds: Set<Seq<char>>, host: Seq<char>) -> Option<
    (Option<Seq<char>>, Option<Seq<char>>),
>;

/// The domain and suffix parts an extraction attempt produced; either part
/// may be absent.
pub struct Extraction {
    /// The registrable label left of the suffix, when one was found.
    pub domain: Option<String>,
    /// The public suffix, when one was found.
    pub suffix: Option<String>,
}

/// The view of an optional string.
pub open spec fn opt_text(o: Option<String>) -> Option<Seq<char>> {
    match o {
        Some(s) => Some(s@),
        None => None,
    }
}

impl View for Extraction {
    type V = (Option<Seq<char>>, Option<Seq<char>>);

    open spec fn view(&self) -> Self::V {
        (opt_text(self.domain), opt_text(self.suffix))
    }
}

/// The view of an extraction attempt's result.
pub open spec fn opt_parts(r: Option<Extraction>) -> Option<
    (Option<Seq<char>>, Option<Seq<char>>),
> {
    match r {
        Some(e) => Some(e@),
        None => None,
    }
}

/// A shared, immutable normalization capability: public-suffix data loaded
/// once at startup and read by every worker.
pub struct Normalizer {
    ext: tldextract::TldExtractor,
}

impl Normalizer {
    /// The suffix data this normalizer was built over.
    pub closed spec fn suffixes(self) -> Set<Seq<char>> {
        suffix_data(self.ext)
    }

    /// What normalizing `host` yields under this normalizer's suffix data.
    pub open spec fn parts(self, host: Seq<char>) -> Option<
        (Option<Seq<char>>, Option<Seq<char>>),
    > {
        psl_parts(self.suffixes(), host)
    }

    /// Relies on `tldextract::TldOption::default` and `TldOption::build`:
    /// loads the public-suffix data (a local cache file when one exists,
    /// else the crate's bundled snapshot) into an extractor with naive
    /// mode off. Which data is loaded depends on the environment, so
    /// nothing is stated of it.
    #[verifier::external_body]
    pub fn new() -> (n: Normalizer) {
        Normalizer { ext: tldextract::TldOption::default().build() }
    }

    /// Relies on `tldextract::TldExtractor::extract`: splits a hostname or
    /// URL into domain and suffix parts by matching against the suffix
    /// data; with naive mode off (as `Normalizer::new` builds it) the
    /// outcome is a function of that data and the input alone. An error
    /// becomes `None`.
    #[verifier::external_body]
    fn extract_parts(&self, host: &str) -> (r: Option<Extraction>)
        ensures
            opt_parts(r) == psl_parts(suffix_data(self.ext), host@),
    {
        match self.ext.extract(host) {
            Ok(t) => Some(Extraction { domain: t.domain, suffix: t.suffix }),
            Err(_) => None,
        }
    }

    /// Normalizes one host: the output line `domain.suffix` when both
    /// parts resolve, and no line otherwise.
    pub fn process_host(&self, host: &str) -> (r: Option<String>)
        ensures
            match r {
                Some(line) => normalized_line(self.parts(host@)) == Some(line@),
                None => normalized_line(self.parts(host@)) is None,
            },
    {
        compose_output(self.extract_parts(host))
    }
}

/// The registrable domain text: `domain`, a dot, `suffix`.
pub open spec fn root_domain(domain: Seq<char>, suffix: Seq<char>) -> Seq<char> {
    domain + seq!['.'] + suffix
}

/// The output line owed for an extraction outcome: the root domain when
/// both a domain and a suffix resolved, nothing otherwise.
pub open spec fn normalized_line(parts: Option<(Option<Seq<char>>, Option<Seq<char>>)>) -> Option<
    Seq<char>,
> {
    match parts {
        Some((Some(d), Some(s))) => Some(root_domain(d, s)),
        _ => None,
    }
}

/// Concatenates `domain`, a dot, and `suffix` into one output line.
pub fn compose_root(domain: &str, suffix: &str) -> (r: String)
    ensures
        r@ == root_domain(domain@, suffix@),
{
    let mut r = String::new();
    r.append(domain);
    r.append(".");
    r.append(suffix);
    proof {
        reveal_strlit(".");
        assert("."@ =~= seq!['.']);
        assert(r@ =~= root_domain(domain@, suffix@));
    }
    r
}

/// Turns an extraction outcome into the output line it owes: exactly one
/// line `domain.suffix` when both parts are present, and none when the
/// extraction failed or either part is missing.
pub fn compose_output(parts: Option<Extraction>) -> (r: Option<String>)
    ensures
        match r {
            Some(line) => normalized_line(opt_parts(parts)) == Some(line@),
            None => normalized_line(opt_parts(parts)) is None,
        },
{
    match parts {
        Some(e) => match (e.domain, e.suffix) {
            (Some(d), Some(s)) => Some(compose_root(d.as_str(), s.as_str())),
            _ => None,
        },
        None => None,
    }
}

/// Normalization is deterministic: two normalizers over the same suffix
/// data yield the same outcome for the same host, on every call.
pub proof fn lemma_normalization_deterministic(
    n1: Normalizer,
    n2: Normalizer,
    host: Seq<char>,
)
    requires
        n1.suffixes() == n2.suffixes(),
    ensures
        n1.parts(host) == n2.parts(host),
        normalized_line(n1.parts(host)) == normalized_line(n2.parts(host)),
{
}

} // verus!
