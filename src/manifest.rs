//! Topic manifests as the feed publishes them, and the architecture filter.
use vstd::prelude::*;
use crate::text::{contains_str, str_eq};

verus! {

/// One update channel offered by the feed.
#[derive(Clone, Debug)]
pub struct TopicManifest {
    /// The topic should be active after the next commit.
    pub enabled: bool,
    /// The topic is no longer offered but was enrolled before.
    pub closed: bool,
    pub name: String,
    pub description: Option<String>,
    /// Publication time, in seconds since the epoch.
    pub date: i64,
    /// Architecture tags, or the wildcard `all`.
    pub arch: Vec<String>,
    /// Packages that the topic affects, in order.
    pub packages: Vec<String>,
}

/// The mathematical value of a [`TopicManifest`].
pub struct TopicView {
    pub enabled: bool,
    pub closed: bool,
    pub name: Seq<char>,
    pub description: Option<Seq<char>>,
    pub date: i64,
    pub arch: Seq<Seq<char>>,
    pub packages: Seq<Seq<char>>,
}

pub open spec fn opt_str_view(o: Option<String>) -> Option<Seq<char>> {
    match o {
        Some(s) => Some(s@),
        None => None,
    }
}

impl View for TopicManifest {
    type V = TopicView;

    open spec fn view(&self) -> TopicView {
        TopicView {
            enabled: self.enabled,
            closed: self.closed,
            name: self.name@,
            description: opt_str_view(self.description),
            date: self.date,
            arch: self.arch.deep_view(),
            packages: self.packages.deep_view(),
        }
    }
}

/// The views of a sequence of topics.
pub open spec fn topics_view(v: Seq<TopicManifest>) -> Seq<TopicView> {
    v.map_values(|t: TopicManifest| t@)
}

/// The tag that the feed uses for a machine architecture, as Rust names it.
pub open spec fn arch_tag_of(target: Seq<char>) -> Option<Seq<char>> {
    if target == "x86_64"@ {
        Some("amd64"@)
    } else if target == "x86"@ {
        Some("i486"@)
    } else if target == "aarch64"@ {
        Some("arm64"@)
    } else if target == "powerpc64"@ {
        Some("ppc64el"@)
    } else if target == "mips64"@ {
        Some("loongson3"@)
    } else if target == "riscv64"@ {
        Some("riscv64"@)
    } else if target == "loongarch64"@ {
        Some("loongarch64"@)
    } else {
        None
    }
}

/// A topic is offered on the architecture with tag `tag`.
pub open spec fn offered_on(t: TopicView, tag: Seq<char>) -> bool {
    t.arch.contains("all"@) || t.arch.contains(tag)
}

/// The topics of `ts` that are offered on `tag`, in order.
pub open spec fn filtered(ts: Seq<TopicView>, tag: Seq<char>) -> Seq<TopicView> {
    ts.filter(|t: TopicView| offered_on(t, tag))
}

/// The feed's tag for the architecture `target_arch` (as in
/// `std::env::consts::ARCH`), if it has one.
pub fn get_arch_name(target_arch: &str) -> (r: Option<&'static str>)
    ensures
        match r {
            Some(t) => arch_tag_of(target_arch@) == Some(t@),
            None => arch_tag_of(target_arch@) is None,
        },
{
    if str_eq(target_arch, "x86_64") {
        Some("amd64")
    } else if str_eq(target_arch, "x86") {
        Some("i486")
    } else if str_eq(target_arch, "aarch64") {
        Some("arm64")
    } else if str_eq(target_arch, "powerpc64") {
        Some("ppc64el")
    } else if str_eq(target_arch, "mips64") {
        Some("loongson3")
    } else if str_eq(target_arch, "riscv64") {
        Some("riscv64")
    } else if str_eq(target_arch, "loongarch64") {
        Some("loongarch64")
    } else {
        None
    }
}

/// The running architecture has no tag in the feed.
#[derive(Debug, PartialEq, Eq)]
pub struct UnknownArchitecture;

/// Keeps the topics offered on the running architecture `target_arch`:
/// those whose tags hold `all` or the architecture's own tag.
pub fn filter_topics(topics: Vec<TopicManifest>, target_arch: &str) -> (r: Result<
    Vec<TopicManifest>,
    UnknownArchitecture,
>)
    ensures
        match arch_tag_of(target_arch@) {
            None => r is Err,
            Some(tag) => r is Ok && topics_view(r->Ok_0@) == filtered(topics_view(topics@), tag),
        },
{
    let arch = match get_arch_name(target_arch) {
        Some(a) => a,
        None => return Err(UnknownArchitecture),
    };
    let ghost tag = arch@;
    let ghost all = topics_view(topics@);
    let mut kept: Vec<TopicManifest> = Vec::new();
    for topic in it: topics.into_iter()
        invariant
            it.seq() == topics@,
            tag == arch@,
            all == topics_view(topics@),
            topics_view(kept@) == filtered(all.take(it.index() as int), tag),
    {
        let ghost k = it.index();
        let ghost before = kept@;
        proof {
            assert(topic == topics@[k as int]);
            assert(all.take(k + 1) == all.take(k as int).push(topic@));
            all.take(k as int).lemma_filter_push(topic@, |t: TopicView| offered_on(t, tag));
        }
        let has_all = contains_str(&topic.arch, "all");
        let has_tag = contains_str(&topic.arch, arch);
        if has_all || has_tag {
            kept.push(topic);
            assert(topics_view(kept@) == topics_view(before).push(topic@));
        }
    }
    proof {
        assert(all.take(all.len() as int) == all);
    }
    Ok(kept)
}

/// A topic survives filtering exactly when its tags hold `all` or the
/// local architecture's tag (and it was among the input).
pub proof fn lemma_filter_keeps_exactly(ts: Seq<TopicView>, tag: Seq<char>, t: TopicView)
    ensures
        filtered(ts, tag).contains(t) <==> (ts.contains(t) && (t.arch.contains("all"@)
            || t.arch.contains(tag))),
{
    let pred = |x: TopicView| offered_on(x, tag);
    let f = ts.filter(pred);
    if f.contains(t) {
        ts.lemma_filter_contains_rev(pred, t);
        let i = choose|i: int| 0 <= i < f.len() && f[i] == t;
        ts.lemma_filter_pred(pred, i);
    }
    if ts.contains(t) && offered_on(t, tag) {
        let i = choose|i: int| 0 <= i < ts.len() && ts[i] == t;
        ts.lemma_filter_contains(pred, i);
    }
}

} // verus!
