//! Reconciliation of the enrolled topics with freshly fetched manifests, and
//! what a commit writes: the repository source list and the new baseline.
use vstd::prelude::*;
use crate::manifest::{TopicManifest, TopicView, topics_view, opt_str_view};
use vstd::string::{StrSliceExecFns, StringExecFns};
use crate::text::{contains_str, clone_strings, clone_opt_string, str_eq};

verus! {

/// A topic as the enrollment baseline stores it.
#[derive(Clone, Debug)]
pub struct PreviousTopic {
    pub name: String,
    pub description: Option<String>,
    pub date: i64,
    pub packages: Vec<String>,
}

/// The mathematical value of a [`PreviousTopic`].
pub struct PreviousView {
    pub name: Seq<char>,
    pub description: Option<Seq<char>>,
    pub date: i64,
    pub packages: Seq<Seq<char>>,
}

impl View for PreviousTopic {
    type V = PreviousView;

    open spec fn view(&self) -> PreviousView {
        PreviousView {
            name: self.name@,
            description: opt_str_view(self.description),
            date: self.date,
            packages: self.packages.deep_view(),
        }
    }
}

pub open spec fn previous_view(v: Seq<PreviousTopic>) -> Seq<PreviousView> {
    v.map_values(|p: PreviousTopic| p@)
}

pub open spec fn topic_names(ts: Seq<TopicView>) -> Seq<Seq<char>> {
    ts.map_values(|t: TopicView| t.name)
}

pub open spec fn previous_names(ps: Seq<PreviousView>) -> Seq<Seq<char>> {
    ps.map_values(|p: PreviousView| p.name)
}

/// The entry shown for an enrolled topic that the feed no longer offers.
pub open spec fn closed_entry(p: PreviousView) -> TopicView {
    TopicView {
        enabled: false,
        closed: true,
        name: p.name,
        description: p.description,
        date: p.date,
        arch: Seq::empty(),
        packages: p.packages,
    }
}

/// The closed entries that the first `k` baseline topics give, in order.
pub open spec fn closed_entries(prev: Seq<PreviousView>, fresh: Seq<TopicView>, k: int) -> Seq<
    TopicView,
>
    decreases k,
{
    if k <= 0 {
        Seq::empty()
    } else {
        let s = closed_entries(prev, fresh, k - 1);
        if topic_names(fresh).contains(prev[k - 1].name) {
            s
        } else {
            s.push(closed_entry(prev[k - 1]))
        }
    }
}

/// No later topic of `ts` has the name of the topic at `i`: a name-keyed
/// map built from `ts` holds this one.
pub open spec fn is_last_of_name(ts: Seq<TopicView>, i: int) -> bool {
    forall|j: int| i < j < ts.len() ==> #[trigger] ts[j].name != ts[i].name
}

/// A fresh topic, enabled when the baseline holds its name.
pub open spec fn enrolled(t: TopicView, prev: Seq<PreviousView>) -> TopicView {
    TopicView {
        enabled: t.enabled || previous_names(prev).contains(t.name),
        closed: t.closed,
        name: t.name,
        description: t.description,
        date: t.date,
        arch: t.arch,
        packages: t.packages,
    }
}

/// The fresh entries among the first `k`, one per name, marked by enrollment.
pub open spec fn fresh_entries(fresh: Seq<TopicView>, prev: Seq<PreviousView>, k: int) -> Seq<
    TopicView,
>
    decreases k,
{
    if k <= 0 {
        Seq::empty()
    } else {
        let s = fresh_entries(fresh, prev, k - 1);
        if is_last_of_name(fresh, k - 1) {
            s.push(enrolled(fresh[k - 1], prev))
        } else {
            s
        }
    }
}

/// The display list: the closed entries in baseline order, then the fresh
/// topics.
pub open spec fn display_listing(fresh: Seq<TopicView>, prev: Seq<PreviousView>) -> Seq<TopicView> {
    closed_entries(prev, fresh, prev.len() as int) + fresh_entries(fresh, prev, fresh.len() as int)
}

/// The names of a list of topics.
fn names_of_topics(ts: &Vec<TopicManifest>) -> (r: Vec<String>)
    ensures
        r.deep_view() == topic_names(topics_view(ts@)),
{
    let mut r: Vec<String> = Vec::new();
    let mut i: usize = 0;
    while i < ts.len()
        invariant
            i <= ts.len(),
            r.deep_view() == topic_names(topics_view(ts@)).take(i as int),
        decreases ts.len() - i,
    {
        r.push(ts[i].name.clone());
        assert(topic_names(topics_view(ts@)).take(i + 1) == topic_names(topics_view(ts@)).take(
            i as int,
        ).push(ts[i as int].name@));
        i += 1;
    }
    assert(topic_names(topics_view(ts@)).take(ts.len() as int) == topic_names(topics_view(ts@)));
    r
}

/// The names of the baseline topics.
fn names_of_previous(ps: &Vec<PreviousTopic>) -> (r: Vec<String>)
    ensures
        r.deep_view() == previous_names(previous_view(ps@)),
{
    let mut r: Vec<String> = Vec::new();
    let mut i: usize = 0;
    while i < ps.len()
        invariant
            i <= ps.len(),
            r.deep_view() == previous_names(previous_view(ps@)).take(i as int),
        decreases ps.len() - i,
    {
        r.push(ps[i].name.clone());
        assert(previous_names(previous_view(ps@)).take(i + 1) == previous_names(
            previous_view(ps@),
        ).take(i as int).push(ps[i as int].name@));
        i += 1;
    }
    assert(previous_names(previous_view(ps@)).take(ps.len() as int) == previous_names(
        previous_view(ps@),
    ));
    r
}

/// No string after index `k` of `names` equals the one at `k`.
fn is_last_name(names: &Vec<String>, k: usize) -> (r: bool)
    requires
        k < names.len(),
    ensures
        r == forall|j: int| k < j < names.len() ==> names.deep_view()[j] != names.deep_view()[k as int],
{
    let mut j: usize = k + 1;
    while j < names.len()
        invariant
            k < j <= names.len(),
            forall|i: int| k < i < j ==> names.deep_view()[i] != names.deep_view()[k as int],
        decreases names.len() - j,
    {
        if str_eq(names[j].as_str(), names[k].as_str()) {
            assert(names.deep_view()[j as int] == names.deep_view()[k as int]);
            return false;
        }
        j += 1;
    }
    true
}

/// Merges the enrollment baseline `previous` with the freshly fetched topics
/// `current`. A fresh topic whose name the baseline holds is enabled; a
/// baseline topic that the feed no longer offers gives a closed, disabled
/// entry built from the stored data. The closed entries come first, in
/// baseline order, then the fresh topics, one per name (the last given).
pub fn get_display_listing(current: Vec<TopicManifest>, previous: Vec<PreviousTopic>) -> (r: Vec<
    TopicManifest,
>)
    ensures
        topics_view(r@) == display_listing(topics_view(current@), previous_view(previous@)),
{
    let ghost fresh = topics_view(current@);
    let ghost prev = previous_view(previous@);
    let fresh_names = names_of_topics(&current);
    let prev_names = names_of_previous(&previous);
    let mut out: Vec<TopicManifest> = Vec::new();
    for p in it: previous.into_iter()
        invariant
            it.seq() == previous@,
            prev == previous_view(previous@),
            fresh_names.deep_view() == topic_names(fresh),
            topics_view(out@) == closed_entries(prev, fresh, it.index() as int),
    {
        let ghost before = out@;
        assert(p@ == prev[it.index() as int]);
        if !contains_str(&fresh_names, p.name.as_str()) {
            let ghost pv = p@;
            let entry = TopicManifest {
                enabled: false,
                closed: true,
                name: p.name,
                description: p.description,
                date: p.date,
                arch: Vec::new(),
                packages: p.packages,
            };
            assert(entry.arch.deep_view() =~= Seq::<Seq<char>>::empty());
            assert(entry@ == closed_entry(pv));
            out.push(entry);
            assert(topics_view(out@) == topics_view(before).push(closed_entry(pv)));
        }
    }
    let ghost closed_len = out@.len();
    assert(fresh_names.deep_view().len() == fresh_names@.len());
    assert(topic_names(fresh).len() == current@.len());
    let mut k: usize = 0;
    for t in it: current.into_iter()
        invariant
            it.seq() == current@,
            k == it.index(),
            fresh == topics_view(current@),
            fresh_names.deep_view() == topic_names(fresh),
            fresh_names.len() == current@.len(),
            prev_names.deep_view() == previous_names(prev),
            closed_len <= out@.len(),
            topics_view(out@).take(closed_len as int) == closed_entries(prev, fresh, prev.len() as int),
            topics_view(out@).skip(closed_len as int) == fresh_entries(fresh, prev, k as int),
    {
        let ghost before = out@;
        assert(t@ == fresh[k as int]);
        assert(fresh_names.deep_view()[k as int] == fresh[k as int].name);
        if is_last_name(&fresh_names, k) {
            assert(is_last_of_name(fresh, k as int)) by {
                assert forall|j: int| k < j < fresh.len() implies #[trigger] fresh[j].name
                    != fresh[k as int].name by {
                    assert(fresh_names.deep_view()[j] == fresh[j].name);
                }
            }
            let mut t = t;
            let known = contains_str(&prev_names, t.name.as_str());
            t.enabled = t.enabled || known;
            out.push(t);
            assert(topics_view(out@) == topics_view(before).push(enrolled(fresh[k as int], prev)));
            assert(topics_view(out@).take(closed_len as int) == topics_view(before).take(
                closed_len as int,
            ));
            assert(topics_view(out@).skip(closed_len as int) == topics_view(before).skip(
                closed_len as int,
            ).push(enrolled(fresh[k as int], prev)));
        } else {
            assert(!is_last_of_name(fresh, k as int)) by {
                let j = choose|j: int|
                    k < j < fresh_names.len() && fresh_names.deep_view()[j]
                        == fresh_names.deep_view()[k as int];
                assert(fresh[j].name == fresh[k as int].name);
            }
        }
        k += 1;
    }
    assert(topics_view(out@) == topics_view(out@).take(closed_len as int) + topics_view(out@).skip(
        closed_len as int,
    ));
    out
}

/// Every fresh entry of the display list carries a name of the fresh data.
proof fn lemma_fresh_entry_names(fresh: Seq<TopicView>, prev: Seq<PreviousView>, k: int)
    requires
        k <= fresh.len(),
    ensures
        forall|x: int|
            0 <= x < fresh_entries(fresh, prev, k).len() ==> topic_names(fresh).contains(
                #[trigger] fresh_entries(fresh, prev, k)[x].name,
            ),
    decreases k,
{
    if k > 0 {
        lemma_fresh_entry_names(fresh, prev, k - 1);
        assert(topic_names(fresh)[k - 1] == fresh[k - 1].name);
    }
}

/// Among the closed entries of the first `k` baseline topics, the one named
/// like the `i`-th baseline topic (absent from the fresh data) is there once
/// when `i < k`, and not at all otherwise.
proof fn lemma_closed_entry_once(
    prev: Seq<PreviousView>,
    fresh: Seq<TopicView>,
    i: int,
    k: int,
)
    requires
        0 <= i < prev.len(),
        k <= prev.len(),
        forall|a: int, b: int| 0 <= a < b < prev.len() ==> prev[a].name != prev[b].name,
        !topic_names(fresh).contains(prev[i].name),
    ensures
        k <= i ==> forall|x: int|
            0 <= x < closed_entries(prev, fresh, k).len() ==> (#[trigger] closed_entries(
                prev,
                fresh,
                k,
            )[x]).name != prev[i].name,
        i < k ==> exists|x: int|
            0 <= x < closed_entries(prev, fresh, k).len() && closed_entries(prev, fresh, k)[x]
                == closed_entry(prev[i]) && forall|y: int|
                0 <= y < closed_entries(prev, fresh, k).len() && (#[trigger] closed_entries(
                    prev,
                    fresh,
                    k,
                )[y]).name == prev[i].name ==> y == x,
    decreases k,
{
    if k > 0 {
        lemma_closed_entry_once(prev, fresh, i, k - 1);
        let s = closed_entries(prev, fresh, k - 1);
        let t = closed_entries(prev, fresh, k);
        if k - 1 == i {
            assert(t == s.push(closed_entry(prev[i])));
            let x = s.len() as int;
            assert(t[x] == closed_entry(prev[i]));
            assert forall|y: int| 0 <= y < t.len() && (#[trigger] t[y]).name == prev[i].name implies y
                == x by {
                if y < x {
                    assert(t[y] == s[y]);
                }
            }
        } else if !topic_names(fresh).contains(prev[k - 1].name) {
            assert(t == s.push(closed_entry(prev[k - 1])));
            if k - 1 < i {
                assert(prev[k - 1].name != prev[i].name);
                assert forall|x: int| 0 <= x < t.len() implies (#[trigger] t[x]).name
                    != prev[i].name by {
                    if x < s.len() {
                        assert(t[x] == s[x]);
                    }
                }
            } else {
                assert(prev[i].name != prev[k - 1].name);
                let x = choose|x: int|
                    0 <= x < s.len() && s[x] == closed_entry(prev[i]) && forall|y: int|
                        0 <= y < s.len() && (#[trigger] s[y]).name == prev[i].name ==> y == x;
                assert(t[x] == closed_entry(prev[i]));
                assert forall|y: int| 0 <= y < t.len() && (#[trigger] t[y]).name == prev[i].name implies y
                    == x by {
                    if y < s.len() {
                        assert(t[y] == s[y]);
                    }
                }
            }
        }
    }
}

/// An enrolled topic that the fresh data no longer holds appears exactly once
/// in the display list, closed and disabled (for a baseline whose names are
/// distinct).
pub proof fn lemma_closed_topic_appears_once(
    fresh: Seq<TopicView>,
    prev: Seq<PreviousView>,
    i: int,
)
    requires
        0 <= i < prev.len(),
        forall|a: int, b: int| 0 <= a < b < prev.len() ==> prev[a].name != prev[b].name,
        !topic_names(fresh).contains(prev[i].name),
    ensures
        exists|x: int|
            0 <= x < display_listing(fresh, prev).len() && (#[trigger] display_listing(
                fresh,
                prev,
            )[x]).name == prev[i].name && display_listing(fresh, prev)[x].closed
                && !display_listing(fresh, prev)[x].enabled && forall|y: int|
                0 <= y < display_listing(fresh, prev).len() && (#[trigger] display_listing(
                    fresh,
                    prev,
                )[y]).name == prev[i].name ==> y == x,
{
    let c = closed_entries(prev, fresh, prev.len() as int);
    let f = fresh_entries(fresh, prev, fresh.len() as int);
    let d = display_listing(fresh, prev);
    lemma_closed_entry_once(prev, fresh, i, prev.len() as int);
    lemma_fresh_entry_names(fresh, prev, fresh.len() as int);
    let x = choose|x: int|
        0 <= x < c.len() && c[x] == closed_entry(prev[i]) && forall|y: int|
            0 <= y < c.len() && (#[trigger] c[y]).name == prev[i].name ==> y == x;
    assert(d[x] == c[x]);
    assert forall|y: int| 0 <= y < d.len() && (#[trigger] d[y]).name == prev[i].name implies y
        == x by {
        if y < c.len() {
            assert(d[y] == c[y]);
        } else {
            assert(d[y] == f[y - c.len()]);
        }
    }
}

/// Reconciling twice, with fresh data and a baseline that did not change,
/// gives the same list, hence the same enabled and closed flag for every
/// entry.
pub proof fn lemma_reconcile_idempotent(
    fresh1: Seq<TopicView>,
    fresh2: Seq<TopicView>,
    prev1: Seq<PreviousView>,
    prev2: Seq<PreviousView>,
)
    requires
        fresh1 == fresh2,
        prev1 == prev2,
    ensures
        display_listing(fresh1, prev1).len() == display_listing(fresh2, prev2).len(),
        forall|x: int|
            0 <= x < display_listing(fresh1, prev1).len() ==> (#[trigger] display_listing(
                fresh1,
                prev1,
            )[x]).enabled == display_listing(fresh2, prev2)[x].enabled && display_listing(
                fresh1,
                prev1,
            )[x].closed == display_listing(fresh2, prev2)[x].closed,
{
}

/// The first `j` packages of `pkgs` that `installed` holds, in order.
pub open spec fn installed_among(pkgs: Seq<Seq<char>>, installed: Seq<Seq<char>>, j: int) -> Seq<
    Seq<char>,
>
    decreases j,
{
    if j <= 0 {
        Seq::empty()
    } else {
        let s = installed_among(pkgs, installed, j - 1);
        if installed.contains(pkgs[j - 1]) {
            s.push(pkgs[j - 1])
        } else {
            s
        }
    }
}

/// The installed packages of the first `k` topics, topic by topic.
pub open spec fn removed_packages(ts: Seq<TopicView>, installed: Seq<Seq<char>>, k: int) -> Seq<
    Seq<char>,
>
    decreases k,
{
    if k <= 0 {
        Seq::empty()
    } else {
        removed_packages(ts, installed, k - 1) + installed_among(
            ts[k - 1].packages,
            installed,
            ts[k - 1].packages.len() as int,
        )
    }
}

/// The packages of the closing topics that are installed: these need a
/// stable replacement. Kept in topic order, then package order.
pub fn close_topics(topics: &[TopicManifest], installed: &Vec<String>) -> (r: Vec<String>)
    ensures
        r.deep_view() == removed_packages(
            topics_view(topics@),
            installed.deep_view(),
            topics@.len() as int,
        ),
{
    let ghost ts = topics_view(topics@);
    let ghost inst = installed.deep_view();
    let mut remove: Vec<String> = Vec::new();
    let mut k: usize = 0;
    while k < topics.len()
        invariant
            k <= topics@.len(),
            ts == topics_view(topics@),
            inst == installed.deep_view(),
            remove.deep_view() == removed_packages(ts, inst, k as int),
        decreases topics.len() - k,
    {
        let pkgs = &topics[k].packages;
        assert(ts[k as int].packages == pkgs.deep_view());
        let ghost base = remove.deep_view();
        let mut j: usize = 0;
        while j < pkgs.len()
            invariant
                j <= pkgs@.len(),
                inst == installed.deep_view(),
                remove.deep_view() == base + installed_among(pkgs.deep_view(), inst, j as int),
            decreases pkgs.len() - j,
        {
            let ghost before = remove.deep_view();
            if contains_str(installed, pkgs[j].as_str()) {
                remove.push(pkgs[j].clone());
                assert(remove.deep_view() == before.push(pkgs.deep_view()[j as int]));
            }
            j += 1;
        }
        k += 1;
    }
    remove
}

/// The baseline entry of a topic.
pub open spec fn baseline_entry(t: TopicView) -> PreviousView {
    PreviousView { name: t.name, description: t.description, date: t.date, packages: t.packages }
}

/// The baseline entries of the enabled topics among the first `k`.
pub open spec fn baseline_of(ts: Seq<TopicView>, k: int) -> Seq<PreviousView>
    decreases k,
{
    if k <= 0 {
        Seq::empty()
    } else if ts[k - 1].enabled {
        baseline_of(ts, k - 1).push(baseline_entry(ts[k - 1]))
    } else {
        baseline_of(ts, k - 1)
    }
}

/// The new enrollment baseline: the enabled topics, in order.
pub fn previous_topics_of(topics: &[TopicManifest]) -> (r: Vec<PreviousTopic>)
    ensures
        previous_view(r@) == baseline_of(topics_view(topics@), topics@.len() as int),
{
    let ghost ts = topics_view(topics@);
    let mut out: Vec<PreviousTopic> = Vec::new();
    let mut k: usize = 0;
    while k < topics.len()
        invariant
            k <= topics@.len(),
            ts == topics_view(topics@),
            previous_view(out@) == baseline_of(ts, k as int),
        decreases topics.len() - k,
    {
        let t = &topics[k];
        assert(ts[k as int] == t@);
        if t.enabled {
            let ghost before = out@;
            let entry = PreviousTopic {
                name: t.name.clone(),
                description: clone_opt_string(&t.description),
                date: t.date,
                packages: clone_strings(&t.packages),
            };
            assert(entry@ == baseline_entry(t@));
            out.push(entry);
            assert(previous_view(out@) == previous_view(before).push(baseline_entry(t@)));
        }
        k += 1;
    }
    out
}

/// The mirror URL with a trailing `/`.
pub open spec fn normalized_url(url: Seq<char>) -> Seq<char> {
    if url.len() > 0 && url.last() == '/' {
        url
    } else {
        url.push('/')
    }
}

/// Adds a trailing `/` to a URL that lacks one.
pub fn normalize_url(url: &str) -> (r: String)
    ensures
        r@ == normalized_url(url@),
{
    let n = url.unicode_len();
    let mut out = String::from_str(url);
    if n == 0 || url.get_char(n - 1) != '/' {
        proof {
            reveal_strlit("/");
        }
        out.append("/");
    }
    out
}

/// The two-line stanza of one topic in the repository source list.
pub open spec fn stanza(name: Seq<char>, url: Seq<char>) -> Seq<char> {
    "# Topic `"@ + name + "`\ndeb "@ + url + "debs "@ + name + " main\n"@
}

/// The stanzas of the enabled topics among the first `k`, in order.
pub open spec fn topic_list_text(ts: Seq<TopicView>, url: Seq<char>, k: int) -> Seq<char>
    decreases k,
{
    if k <= 0 {
        Seq::empty()
    } else if ts[k - 1].enabled {
        topic_list_text(ts, url, k - 1) + stanza(ts[k - 1].name, normalized_url(url))
    } else {
        topic_list_text(ts, url, k - 1)
    }
}

/// One stanza per enabled topic, each pointing at the mirror.
pub fn make_topic_list(topics: &[TopicManifest], mirror_url: &str) -> (r: String)
    ensures
        r@ == topic_list_text(topics_view(topics@), mirror_url@, topics@.len() as int),
{
    let ghost ts = topics_view(topics@);
    let url = normalize_url(mirror_url);
    let mut output = String::new();
    let mut k: usize = 0;
    while k < topics.len()
        invariant
            k <= topics@.len(),
            ts == topics_view(topics@),
            url@ == normalized_url(mirror_url@),
            output@ == topic_list_text(ts, mirror_url@, k as int),
        decreases topics.len() - k,
    {
        let t = &topics[k];
        assert(ts[k as int] == t@);
        if t.enabled {
            let ghost before = output@;
            output.append("# Topic `");
            output.append(t.name.as_str());
            output.append("`\ndeb ");
            output.append(url.as_str());
            output.append("debs ");
            output.append(t.name.as_str());
            output.append(" main\n");
            assert(output@ == before + stanza(t.name@, url@));
        }
        k += 1;
    }
    output
}

/// The fixed first line of the repository source list.
pub open spec fn source_header() -> Seq<char> {
    "# Generated by AOSC Topic Manager. DO NOT EDIT THIS FILE!\n"@
}

/// The whole repository source list: the header, then one stanza per
/// enabled topic.
pub fn render_source_list(topics: &[TopicManifest], mirror_url: &str) -> (r: String)
    ensures
        r@ == source_header() + topic_list_text(
            topics_view(topics@),
            mirror_url@,
            topics@.len() as int,
        ),
{
    let header = String::from_str("# Generated by AOSC Topic Manager. DO NOT EDIT THIS FILE!\n");
    let list = make_topic_list(topics, mirror_url);
    header.concat(list.as_str())
}

proof fn lemma_last_of_name_exists(fresh: Seq<TopicView>, i: int)
    requires
        0 <= i < fresh.len(),
    ensures
        exists|j: int|
            i <= j < fresh.len() && fresh[j].name == fresh[i].name && #[trigger] is_last_of_name(
                fresh,
                j,
            ),
    decreases fresh.len() - i,
{
    if !is_last_of_name(fresh, i) {
        let j = choose|j: int| i < j < fresh.len() && #[trigger] fresh[j].name == fresh[i].name;
        lemma_last_of_name_exists(fresh, j);
    }
}

/// The fresh entries come from the last topic of each name, once per name.
proof fn lemma_fresh_entries_shape(fresh: Seq<TopicView>, prev: Seq<PreviousView>, k: int)
    requires
        0 <= k <= fresh.len(),
    ensures
        forall|x: int|
            0 <= x < fresh_entries(fresh, prev, k).len() ==> exists|i: int|
                0 <= i < k && is_last_of_name(fresh, i) && #[trigger] fresh_entries(
                    fresh,
                    prev,
                    k,
                )[x] == enrolled(fresh[i], prev),
        forall|x: int, y: int|
            0 <= x < y < fresh_entries(fresh, prev, k).len() ==> (#[trigger] fresh_entries(
                fresh,
                prev,
                k,
            )[x]).name != (#[trigger] fresh_entries(fresh, prev, k)[y]).name,
        forall|i: int|
            0 <= i < k && #[trigger] is_last_of_name(fresh, i) ==> topic_names(
                fresh_entries(fresh, prev, k),
            ).contains(fresh[i].name),
    decreases k,
{
    if k > 0 {
        lemma_fresh_entries_shape(fresh, prev, k - 1);
        let s = fresh_entries(fresh, prev, k - 1);
        let t = fresh_entries(fresh, prev, k);
        if is_last_of_name(fresh, k - 1) {
            let e = enrolled(fresh[k - 1], prev);
            assert(t == s.push(e));
            assert forall|x: int| 0 <= x < t.len() implies exists|i: int|
                0 <= i < k && is_last_of_name(fresh, i) && #[trigger] t[x] == enrolled(
                    fresh[i],
                    prev,
                ) by {
                if x < s.len() {
                    assert(t[x] == s[x]);
                } else {
                    assert(t[x] == enrolled(fresh[k - 1], prev));
                }
            }
            assert forall|x: int, y: int| 0 <= x < y < t.len() implies (#[trigger] t[x]).name != (
            #[trigger] t[y]).name by {
                assert(t[x] == s[x]);
                if y < s.len() {
                    assert(t[y] == s[y]);
                } else {
                    let i = choose|i: int|
                        0 <= i < k - 1 && is_last_of_name(fresh, i) && #[trigger] s[x] == enrolled(
                            fresh[i],
                            prev,
                        );
                    assert(fresh[k - 1].name != fresh[i].name);
                }
            }
            assert forall|i: int| 0 <= i < k && #[trigger] is_last_of_name(fresh, i) implies topic_names(
                t,
            ).contains(fresh[i].name) by {
                if i < k - 1 {
                    let x = choose|x: int|
                        0 <= x < topic_names(s).len() && topic_names(s)[x] == fresh[i].name;
                    assert(topic_names(t)[x] == topic_names(s)[x]);
                } else {
                    assert(topic_names(t)[s.len() as int] == fresh[i].name);
                }
            }
        }
    }
}

/// Closed entries depend only on which names the fresh data holds.
proof fn lemma_closed_entries_by_names(
    prev: Seq<PreviousView>,
    f1: Seq<TopicView>,
    f2: Seq<TopicView>,
    k: int,
)
    requires
        forall|n: Seq<char>| topic_names(f1).contains(n) == topic_names(f2).contains(n),
    ensures
        closed_entries(prev, f1, k) == closed_entries(prev, f2, k),
    decreases k,
{
    if k > 0 {
        lemma_closed_entries_by_names(prev, f1, f2, k - 1);
        assert(topic_names(f1).contains(prev[k - 1].name) == topic_names(f2).contains(
            prev[k - 1].name,
        ));
    }
}

/// On enrolled topics with distinct names, the fresh entries are the topics
/// themselves.
proof fn lemma_fresh_entries_of_distinct(g: Seq<TopicView>, prev: Seq<PreviousView>, k: int)
    requires
        0 <= k <= g.len(),
        forall|x: int, y: int| 0 <= x < y < g.len() ==> (#[trigger] g[x]).name != (#[trigger] g[y]).name,
        forall|x: int| 0 <= x < g.len() ==> enrolled(#[trigger] g[x], prev) == g[x],
    ensures
        fresh_entries(g, prev, k) == g.take(k),
    decreases k,
{
    if k > 0 {
        lemma_fresh_entries_of_distinct(g, prev, k - 1);
        assert(is_last_of_name(g, k - 1)) by {
            assert forall|j: int| k - 1 < j < g.len() implies #[trigger] g[j].name != g[k - 1].name by {
                assert(g[k - 1].name != g[j].name);
            }
        }
        assert(enrolled(g[k - 1], prev) == g[k - 1]);
        assert(g.take(k) == g.take(k - 1).push(g[k - 1]));
    }
}

/// Reconciliation settles after one pass: reconciling again, with the fresh
/// entries of a reconciled list as the fresh data and the same baseline,
/// gives the same list, hence the same enabled and closed flags.
pub proof fn lemma_reconcile_settles(fresh: Seq<TopicView>, prev: Seq<PreviousView>)
    ensures
        display_listing(fresh_entries(fresh, prev, fresh.len() as int), prev) == display_listing(
            fresh,
            prev,
        ),
{
    let g = fresh_entries(fresh, prev, fresh.len() as int);
    lemma_fresh_entries_shape(fresh, prev, fresh.len() as int);
    assert forall|n: Seq<char>| topic_names(g).contains(n) == topic_names(fresh).contains(n) by {
        if topic_names(g).contains(n) {
            let x = choose|x: int| 0 <= x < topic_names(g).len() && topic_names(g)[x] == n;
            let i = choose|i: int|
                0 <= i < fresh.len() && is_last_of_name(fresh, i) && #[trigger] g[x] == enrolled(
                    fresh[i],
                    prev,
                );
            assert(topic_names(fresh)[i] == n);
        }
        if topic_names(fresh).contains(n) {
            let i = choose|i: int| 0 <= i < topic_names(fresh).len() && topic_names(fresh)[i] == n;
            lemma_last_of_name_exists(fresh, i);
            let j = choose|j: int|
                i <= j < fresh.len() && fresh[j].name == fresh[i].name && #[trigger] is_last_of_name(
                    fresh,
                    j,
                );
        }
    }
    lemma_closed_entries_by_names(prev, g, fresh, prev.len() as int);
    assert forall|x: int| 0 <= x < g.len() implies enrolled(#[trigger] g[x], prev) == g[x] by {
        let i = choose|i: int|
            0 <= i < fresh.len() && is_last_of_name(fresh, i) && #[trigger] g[x] == enrolled(
                fresh[i],
                prev,
            );
    }
    lemma_fresh_entries_of_distinct(g, prev, g.len() as int);
    assert(g.take(g.len() as int) == g);
}

} // verus!
