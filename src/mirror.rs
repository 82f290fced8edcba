//! Choosing a mirror: which candidates are worth probing, and what is used
//! when probing is skipped or every probe fails.
use vstd::prelude::*;
use vstd::string::StringExecFns;

verus! {

/// The endpoint used when no configured mirror can be used.
pub const DEFAULT_REPO_URL: &'static str = "https://repo.aosc.io";

/// Where the topic manifest lies below a mirror's base URL.
pub const PATH_TO_MANIFEST: &'static str = "debs/manifest/topics.json";

/// The URL that `url` gives for `path` resolved against `base`, when both
/// parse.
pub uninterp spec fn joined_url_of(base: Seq<char>, path: Seq<char>) -> Option<Seq<char>>;

/// Relies on `url::Url::parse` of the base and `Url::join` of the path (a
/// parse of the path against that base); `None` when either fails. The
/// result depends on the two strings alone.
#[verifier::external_body]
fn join_url(base: &str, path: &str) -> (r: Option<String>)
    ensures
        match r {
            Some(u) => joined_url_of(base@, path@) == Some(u@),
            None => joined_url_of(base@, path@) is None,
        },
{
    match url::Url::parse(base) {
        Ok(b) => match b.join(path) {
            Ok(u) => Some(u.to_string()),
            Err(_) => None,
        },
        Err(_) => None,
    }
}

pub open spec fn default_url() -> Seq<char> {
    DEFAULT_REPO_URL@
}

pub open spec fn manifest_url_spec(mirror: Seq<char>) -> Option<Seq<char>> {
    joined_url_of(mirror, PATH_TO_MANIFEST@)
}

/// The URL of the topic manifest on a mirror, if the mirror's URL parses.
pub fn manifest_url_for(mirror: &str) -> (r: Option<String>)
    ensures
        match r {
            Some(u) => manifest_url_spec(mirror@) == Some(u@),
            None => manifest_url_spec(mirror@) is None,
        },
{
    join_url(mirror, PATH_TO_MANIFEST)
}

/// The first configured mirror, or the default endpoint when there is none.
/// No probing: for contexts where racing is not available.
pub fn get_sensible_mirror_url(mirrors: &Vec<String>) -> (r: String)
    ensures
        r@ == if mirrors@.len() > 0 {
            mirrors@[0]@
        } else {
            default_url()
        },
{
    if mirrors.len() > 0 {
        mirrors[0].clone()
    } else {
        String::from_str(DEFAULT_REPO_URL)
    }
}

/// What to do to pick a mirror.
pub enum MirrorChoice {
    /// Use this base URL without probing.
    Use(String),
    /// Probe each `(base URL, manifest URL)` concurrently; the first base
    /// whose manifest answers wins.
    Race(Vec<(String, String)>),
}

/// The probes for the first `k` mirrors: those whose URL parses.
pub open spec fn probes_of(mirrors: Seq<Seq<char>>, k: int) -> Seq<(Seq<char>, Seq<char>)>
    decreases k,
{
    if k <= 0 {
        Seq::empty()
    } else {
        match manifest_url_spec(mirrors[k - 1]) {
            Some(u) => probes_of(mirrors, k - 1).push((mirrors[k - 1], u)),
            None => probes_of(mirrors, k - 1),
        }
    }
}

pub open spec fn probes_view(v: Seq<(String, String)>) -> Seq<(Seq<char>, Seq<char>)> {
    v.map_values(|p: (String, String)| (p.0@, p.1@))
}

/// Decides how to pick a mirror among the configured ones. Below two
/// candidates racing is not worth it: the single one, or the default, is
/// used. Otherwise every candidate whose URL parses is probed; when none
/// does, the default is used.
pub fn plan_mirror_probe(mirrors: &Vec<String>) -> (r: MirrorChoice)
    ensures
        mirrors@.len() < 2 ==> (r matches MirrorChoice::Use(u) && u@ == if mirrors@.len() == 1 {
            mirrors@[0]@
        } else {
            default_url()
        }),
        mirrors@.len() >= 2 ==> if probes_of(mirrors.deep_view(), mirrors@.len() as int).len() == 0 {
            r matches MirrorChoice::Use(u) && u@ == default_url()
        } else {
            r matches MirrorChoice::Race(p) && probes_view(p@) == probes_of(
                mirrors.deep_view(),
                mirrors@.len() as int,
            )
        },
{
    if mirrors.len() < 2 {
        return MirrorChoice::Use(get_sensible_mirror_url(mirrors));
    }
    let ghost ms = mirrors.deep_view();
    let mut probes: Vec<(String, String)> = Vec::new();
    let mut i: usize = 0;
    while i < mirrors.len()
        invariant
            i <= mirrors@.len(),
            ms == mirrors.deep_view(),
            probes_view(probes@) == probes_of(ms, i as int),
        decreases mirrors.len() - i,
    {
        assert(ms[i as int] == mirrors@[i as int]@);
        match manifest_url_for(mirrors[i].as_str()) {
            Some(u) => {
                let ghost before = probes@;
                probes.push((mirrors[i].clone(), u));
                assert(probes_view(probes@) == probes_view(before).push((ms[i as int], u@)));
            },
            None => {},
        }
        i += 1;
    }
    if probes.len() == 0 {
        MirrorChoice::Use(String::from_str(DEFAULT_REPO_URL))
    } else {
        MirrorChoice::Race(probes)
    }
}

/// The outcome of a race: the winner, or the default when every probe
/// failed.
pub fn settle_mirror(winner: Option<String>) -> (r: String)
    ensures
        r@ == match winner {
            Some(w) => w@,
            None => default_url(),
        },
{
    match winner {
        Some(w) => w,
        None => String::from_str(DEFAULT_REPO_URL),
    }
}

} // verus!
