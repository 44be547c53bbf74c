//! The Chromium content runtime's configuration, commands and events, and the
//! per-tab generations that keep stale events out.

use vstd::prelude::*;

use crate::text::{ends_with, str_eq};
use crate::url::{spec_url_scheme, WebUrl};

verus! {

/// The CEF release that the runtime is built against.
pub const CEF_VERSION: &'static str = "151.8.0+151.3.24";

/// `base` with the relative component `component` appended, as `Path::join`
/// does with a relative component on a Unix path: a `/` goes between them
/// unless `base` is empty or already ends with one.
pub open spec fn joined_path(base: Seq<char>, component: Seq<char>) -> Seq<char> {
    if base.len() == 0 || ends_with(base, "/"@) {
        base + component
    } else {
        base + "/"@ + component
    }
}

/// Appends a relative path component.
pub fn join_path(base: &str, component: &str) -> (r: String)
    ensures
        r@ == joined_path(base@, component@),
{
    let mut out = String::from_str(base);
    let slash_ended = crate::text::str_ends_with(base, "/");
    if !base.is_empty() && !slash_ended {
        out.append("/");
    }
    out.append(component);
    out
}

/// Where the runtime keeps its profile, its site data and its locale.
#[derive(Clone, Debug, PartialEq, Eq)]
pub struct RuntimeConfig {
    pub profile_root: String,
    pub cache_path: String,
    pub locale: String,
}

impl RuntimeConfig {
    /// A configuration that keeps Chromium's site data under
    /// `<profile_root>/chromium/Default`.
    pub fn persistent(profile_root: String, locale: &str) -> (r: RuntimeConfig)
        ensures
            r.profile_root@ == profile_root@,
            r.cache_path@ == joined_path(joined_path(profile_root@, "chromium"@), "Default"@),
            r.locale@ == locale@,
    {
        let chromium = join_path(profile_root.as_str(), "chromium");
        let cache_path = join_path(chromium.as_str(), "Default");
        RuntimeConfig { profile_root, cache_path, locale: String::from_str(locale) }
    }
}

#[derive(Clone, Copy, Debug, Default, PartialEq, Eq, Structural)]
pub struct ContentBounds {
    pub x: i32,
    pub y: i32,
    pub width: u32,
    pub height: u32,
}

#[derive(Clone, Debug)]
pub enum ChromiumCommand {
    Create { tab_id: String, url: WebUrl },
    Show { tab_id: String },
    Hide { tab_id: String },
    Close { tab_id: String },
    Navigate { tab_id: String, url: WebUrl },
    Back { tab_id: String },
    Forward { tab_id: String },
    Reload { tab_id: String },
    Stop { tab_id: String },
    Resize { bounds: ContentBounds },
}

#[derive(Clone, Debug)]
pub enum ChromiumEvent {
    Loading(bool),
    UrlChanged(WebUrl),
    TitleChanged(String),
    FaviconChanged(Vec<u8>),
    NavigationFailed { code: i32, description: String },
    RendererTerminated { status: String },
    PopupRequested(WebUrl),
}

/// An event of one tab, stamped with the navigation generation it belongs to.
#[derive(Clone, Debug)]
pub struct EventEnvelope {
    pub tab_id: String,
    pub generation: u64,
    pub event: ChromiumEvent,
}

/// The generation recorded for `tab` among `entries`, if any.
pub open spec fn generation_of(entries: Seq<(Seq<char>, u64)>, tab: Seq<char>) -> Option<u64>
    decreases entries.len(),
{
    if entries.len() == 0 {
        None
    } else if entries.last().0 == tab {
        Some(entries.last().1)
    } else {
        generation_of(entries.drop_last(), tab)
    }
}

pub open spec fn distinct_tabs(entries: Seq<(Seq<char>, u64)>) -> bool {
    forall|i: int, j: int| 0 <= i < j < entries.len() ==> entries[i].0 != entries[j].0
}

/// The current navigation generation of each open tab.
#[derive(Clone, Debug)]
pub struct TabGenerations {
    generations: Vec<(String, u64)>,
}

proof fn lemma_generation_at(entries: Seq<(Seq<char>, u64)>, i: int)
    requires
        distinct_tabs(entries),
        0 <= i < entries.len(),
    ensures
        generation_of(entries, entries[i].0) == Some(entries[i].1),
    decreases entries.len(),
{
    if i != entries.len() - 1 {
        assert(entries.last().0 != entries[i].0);
        lemma_generation_at(entries.drop_last(), i);
    }
}

proof fn lemma_generation_absent(entries: Seq<(Seq<char>, u64)>, tab: Seq<char>)
    requires
        forall|i: int| 0 <= i < entries.len() ==> entries[i].0 != tab,
    ensures
        generation_of(entries, tab) is None,
    decreases entries.len(),
{
    if entries.len() > 0 {
        lemma_generation_absent(entries.drop_last(), tab);
    }
}

proof fn lemma_generation_found(entries: Seq<(Seq<char>, u64)>, tab: Seq<char>)
    requires
        generation_of(entries, tab) is Some,
    ensures
        exists|i: int| 0 <= i < entries.len() && entries[i].0 == tab && entries[i].1 == generation_of(entries, tab)->0,
    decreases entries.len(),
{
    if entries.last().0 != tab {
        lemma_generation_found(entries.drop_last(), tab);
        let i = choose|i: int| 0 <= i < entries.drop_last().len() && entries.drop_last()[i].0 == tab && entries.drop_last()[i].1 == generation_of(entries.drop_last(), tab)->0;
        assert(entries[i] == entries.drop_last()[i]);
    } else {
        assert(entries[entries.len() - 1] == entries.last());
    }
}

impl View for TabGenerations {
    type V = Map<Seq<char>, u64>;

    closed spec fn view(&self) -> Map<Seq<char>, u64> {
        let entries = self.entries();
        Map::new(|tab: Seq<char>| generation_of(entries, tab) is Some, |tab: Seq<char>| generation_of(entries, tab)->0)
    }
}

impl TabGenerations {
    spec fn entries(&self) -> Seq<(Seq<char>, u64)> {
        self.generations@.map_values(|e: (String, u64)| (e.0@, e.1))
    }

    /// No tab is recorded twice.
    pub closed spec fn wf(&self) -> bool {
        distinct_tabs(self.entries())
    }

    proof fn lemma_view(&self)
        requires
            self.wf(),
        ensures
            forall|i: int| 0 <= i < self.generations@.len() ==> #[trigger] self@.contains_key(self.generations@[i].0@)
                && self@[self.generations@[i].0@] == self.generations@[i].1,
            forall|tab: Seq<char>| self@.contains_key(tab) ==> exists|i: int| 0 <= i < self.generations@.len() && self.generations@[i].0@ == tab,
    {
        let entries = self.entries();
        assert forall|i: int| 0 <= i < self.generations@.len() implies #[trigger] self@.contains_key(self.generations@[i].0@)
            && self@[self.generations@[i].0@] == self.generations@[i].1 by {
            assert(entries[i] == (self.generations@[i].0@, self.generations@[i].1));
            lemma_generation_at(entries, i);
        }
        assert forall|tab: Seq<char>| self@.contains_key(tab) implies exists|i: int| 0 <= i < self.generations@.len() && self.generations@[i].0@ == tab by {
            lemma_generation_found(entries, tab);
            let i = choose|i: int| 0 <= i < entries.len() && entries[i].0 == tab && entries[i].1 == generation_of(entries, tab)->0;
            assert(entries[i] == (self.generations@[i].0@, self.generations@[i].1));
        }
    }

    /// No tabs.
    pub fn new() -> (r: TabGenerations)
        ensures
            r.wf(),
            r@ == Map::<Seq<char>, u64>::empty(),
    {
        let r = TabGenerations { generations: Vec::new() };
        proof {
            assert(r@ =~= Map::<Seq<char>, u64>::empty());
        }
        r
    }

    fn position(&self, tab_id: &str) -> (r: Option<usize>)
        requires
            self.wf(),
        ensures
            match r {
                Some(i) => i < self.generations@.len() && self.generations@[i as int].0@ == tab_id@,
                None => !self@.contains_key(tab_id@),
            },
    {
        let mut i: usize = 0;
        while i < self.generations.len()
            invariant
                i <= self.generations.len(),
                forall|j: int| 0 <= j < i ==> self.generations@[j].0@ != tab_id@,
            decreases self.generations.len() - i,
        {
            if str_eq(self.generations[i].0.as_str(), tab_id) {
                return Some(i);
            }
            i = i + 1;
        }
        proof {
            self.lemma_view();
        }
        None
    }

    /// Records `tab_id` with generation 0 unless it is already recorded; returns
    /// its generation.
    pub fn register(&mut self, tab_id: &str) -> (r: u64)
        requires
            old(self).wf(),
        ensures
            final(self).wf(),
            old(self)@.contains_key(tab_id@) ==> r == old(self)@[tab_id@] && final(self)@ == old(self)@,
            !old(self)@.contains_key(tab_id@) ==> r == 0 && final(self)@ == old(self)@.insert(tab_id@, 0),
    {
        proof {
            self.lemma_view();
        }
        match self.position(tab_id) {
            Some(i) => self.generations[i].1,
            None => {
                let ghost before = self.entries();
                proof {
                    assert forall|j: int| 0 <= j < before.len() implies before[j].0 != tab_id@ by {
                        assert(before[j] == (self.generations@[j].0@, self.generations@[j].1));
                        assert(self@.contains_key(self.generations@[j].0@));
                    }
                }
                self.generations.push((String::from_str(tab_id), 0));
                proof {
                    let after = self.entries();
                    assert(after =~= before.push((tab_id@, 0u64)));
                    assert(after.drop_last() =~= before);
                    assert(distinct_tabs(after));
                    assert forall|tab: Seq<char>| #[trigger] generation_of(after, tab) == if tab == tab_id@ {
                        Some(0u64)
                    } else {
                        generation_of(before, tab)
                    } by {}
                    assert(self@ =~= old(self)@.insert(tab_id@, 0));
                }
                0
            },
        }
    }

    /// Starts a new navigation of `tab_id`: its generation goes up by one (at most
    /// to `u64::MAX`); `None` for an unknown tab.
    pub fn begin_navigation(&mut self, tab_id: &str) -> (r: Option<u64>)
        requires
            old(self).wf(),
        ensures
            final(self).wf(),
            !old(self)@.contains_key(tab_id@) ==> r is None && final(self)@ == old(self)@,
            old(self)@.contains_key(tab_id@) ==> {
                let next = if old(self)@[tab_id@] == u64::MAX {
                    u64::MAX
                } else {
                    (old(self)@[tab_id@] + 1) as u64
                };
                r == Some(next) && final(self)@ == old(self)@.insert(tab_id@, next)
            },
    {
        proof {
            self.lemma_view();
        }
        match self.position(tab_id) {
            Some(i) => {
                let ghost before = self.entries();
                proof {
                    assert(before[i as int].0 == tab_id@);
                    assert(distinct_tabs(before));
                }
                let (name, generation) = self.generations.remove(i);
                let next = generation.saturating_add(1);
                self.generations.insert(i, (name, next));
                proof {
                    assert(self.entries() =~= before.update(i as int, (tab_id@, next)));
                    assert(distinct_tabs(self.entries())) by {
                        assert forall|a: int, b: int| 0 <= a < b < self.entries().len() implies self.entries()[a].0 != self.entries()[b].0 by {
                            assert(self.entries()[a].0 == before[a].0);
                            assert(self.entries()[b].0 == before[b].0);
                        }
                    }
                    assert forall|tab: Seq<char>| #[trigger] generation_of(self.entries(), tab) == if tab == tab_id@ {
                        Some(next)
                    } else {
                        generation_of(before, tab)
                    } by {
                        if tab == tab_id@ {
                            lemma_generation_at(self.entries(), i as int);
                        } else if generation_of(before, tab) is Some {
                            lemma_generation_found(before, tab);
                            let j = choose|j: int| 0 <= j < before.len() && before[j].0 == tab && before[j].1 == generation_of(before, tab)->0;
                            lemma_generation_at(self.entries(), j);
                        } else {
                            assert forall|j: int| 0 <= j < self.entries().len() implies self.entries()[j].0 != tab by {
                                if j != i && self.entries()[j].0 == tab {
                                    lemma_generation_at(before, j);
                                }
                            }
                            lemma_generation_absent(self.entries(), tab);
                        }
                    }
                    assert(self@ =~= old(self)@.insert(tab_id@, next));
                }
                Some(next)
            },
            None => None,
        }
    }

    /// Forgets `tab_id`; whether it was recorded.
    pub fn close(&mut self, tab_id: &str) -> (r: bool)
        requires
            old(self).wf(),
        ensures
            final(self).wf(),
            r == old(self)@.contains_key(tab_id@),
            final(self)@ == old(self)@.remove(tab_id@),
    {
        proof {
            self.lemma_view();
        }
        match self.position(tab_id) {
            Some(i) => {
                let ghost before = self.entries();
                proof {
                    assert(before[i as int].0 == tab_id@);
                    assert(distinct_tabs(before));
                }
                let _ = self.generations.remove(i);
                proof {
                    assert(self.entries() =~= before.remove(i as int));
                    assert(distinct_tabs(self.entries())) by {
                        assert forall|a: int, b: int| 0 <= a < b < self.entries().len() implies self.entries()[a].0 != self.entries()[b].0 by {
                            let ka = if a < i { a } else { a + 1 };
                            let kb = if b < i { b } else { b + 1 };
                            assert(self.entries()[a] == before[ka]);
                            assert(self.entries()[b] == before[kb]);
                        }
                    }
                    assert forall|tab: Seq<char>| #[trigger] generation_of(self.entries(), tab) == if tab == tab_id@ {
                        None
                    } else {
                        generation_of(before, tab)
                    } by {
                        if tab == tab_id@ {
                            assert forall|j: int| 0 <= j < self.entries().len() implies self.entries()[j].0 != tab by {
                                let k = if j < i { j } else { j + 1 };
                                assert(self.entries()[j] == before[k]);
                                assert(k != i);
                            }
                            lemma_generation_absent(self.entries(), tab);
                        } else if generation_of(before, tab) is Some {
                            lemma_generation_found(before, tab);
                            let j = choose|j: int| 0 <= j < before.len() && before[j].0 == tab && before[j].1 == generation_of(before, tab)->0;
                            assert(j != i);
                            let k = if j < i { j } else { j - 1 };
                            assert(self.entries()[k] == before[j]);
                            lemma_generation_at(self.entries(), k);
                        } else {
                            assert forall|j: int| 0 <= j < self.entries().len() implies self.entries()[j].0 != tab by {
                                let k = if j < i { j } else { j + 1 };
                                assert(self.entries()[j] == before[k]);
                                if before[k].0 == tab {
                                    lemma_generation_at(before, k);
                                }
                            }
                            lemma_generation_absent(self.entries(), tab);
                        }
                    }
                    assert(self@ =~= old(self)@.remove(tab_id@));
                }
                true
            },
            None => {
                proof {
                    assert(self@ =~= old(self)@.remove(tab_id@));
                }
                false
            },
        }
    }

    /// Whether `event` belongs to the current navigation of an open tab.
    pub fn accepts(&self, event: &EventEnvelope) -> (r: bool)
        requires
            self.wf(),
        ensures
            r == (self@.contains_key(event.tab_id@) && self@[event.tab_id@] == event.generation),
    {
        proof {
            self.lemma_view();
        }
        match self.position(event.tab_id.as_str()) {
            Some(i) => {
                proof {
                    assert(self@.contains_key(self.generations@[i as int].0@));
                }
                self.generations[i].1 == event.generation
            },
            None => false,
        }
    }
}

/// Whether generations `tabs` accept an event of `tab` stamped `generation`.
pub open spec fn accepted(tabs: Map<Seq<char>, u64>, tab: Seq<char>, generation: u64) -> bool {
    tabs.contains_key(tab) && tabs[tab] == generation
}

/// Once a tab begins a new navigation, events of its earlier navigations are
/// no longer accepted.
pub proof fn law_new_navigation_makes_earlier_events_stale(
    tabs: Map<Seq<char>, u64>,
    tab: Seq<char>,
    generation: u64,
)
    requires
        tabs.contains_key(tab),
        generation <= tabs[tab] < u64::MAX,
    ensures
        !accepted(tabs.insert(tab, (tabs[tab] + 1) as u64), tab, generation),
        accepted(tabs.insert(tab, (tabs[tab] + 1) as u64), tab, (tabs[tab] + 1) as u64),
{
}

/// Once a tab is closed, none of its events is accepted.
pub proof fn law_closed_tab_accepts_nothing(tabs: Map<Seq<char>, u64>, tab: Seq<char>, generation: u64)
    ensures
        !accepted(tabs.remove(tab), tab, generation),
{
}

/// Registering a tab again keeps its generation.
pub proof fn law_register_is_idempotent(tabs: Map<Seq<char>, u64>, tab: Seq<char>)
    ensures
        ({
            let once = if tabs.contains_key(tab) {
                tabs
            } else {
                tabs.insert(tab, 0)
            };
            let twice = if once.contains_key(tab) {
                once
            } else {
                once.insert(tab, 0)
            };
            twice == once
        }),
{
}

impl Default for TabGenerations {
    fn default() -> (r: TabGenerations)
        ensures
            r.wf(),
            r@ == Map::<Seq<char>, u64>::empty(),
    {
        TabGenerations::new()
    }
}

/// Content that the Chromium runtime may show: `http`, `https`, `file` and `about` URLs.
pub open spec fn is_content_url_spec(url: Seq<char>) -> bool {
    let scheme = spec_url_scheme(url);
    scheme == "http"@ || scheme == "https"@ || scheme == "file"@ || scheme == "about"@
}

pub fn is_content_url(url: &WebUrl) -> (r: bool)
    ensures
        r == is_content_url_spec(url@),
{
    let scheme = url.scheme();
    str_eq(scheme, "http") || str_eq(scheme, "https") || str_eq(scheme, "file") || str_eq(
        scheme,
        "about",
    )
}

#[derive(Clone, Debug, PartialEq, Eq)]
pub enum ChromiumError {
    DistributionMissing,
    RequiredPathMissing(String),
    FrameworkLoadFailed,
    InvalidHelperBundle,
    RuntimeFeatureDisabled,
}

/// The files of a CEF distribution.
#[derive(Clone, Debug, PartialEq, Eq)]
pub struct CefDistribution {
    pub root: String,
    pub framework_binary: String,
    pub resources: String,
    pub locales: String,
}

/// The framework directory of a distribution rooted at `root`.
pub open spec fn framework_dir(root: Seq<char>) -> Seq<char> {
    joined_path(root, "Chromium Embedded Framework.framework"@)
}

/// The paths that a distribution rooted at `root` must hold, in the order they
/// are checked: the framework binary, its resources, and the locales.
pub open spec fn required_paths_spec(root: Seq<char>) -> Seq<Seq<char>> {
    let framework = framework_dir(root);
    let resources = joined_path(framework, "Resources"@);
    seq![
        joined_path(framework, "Chromium Embedded Framework"@),
        resources,
        joined_path(resources, "locales"@),
    ]
}

impl CefDistribution {
    /// The paths that must exist under `root`, in the order they are checked.
    pub fn required_paths(root: &str) -> (r: Vec<String>)
        ensures
            r@.map_values(|p: String| p@) == required_paths_spec(root@),
    {
        let framework = join_path(root, "Chromium Embedded Framework.framework");
        let binary = join_path(framework.as_str(), "Chromium Embedded Framework");
        let resources = join_path(framework.as_str(), "Resources");
        let locales = join_path(resources.as_str(), "locales");
        let mut paths: Vec<String> = Vec::new();
        paths.push(binary);
        paths.push(resources);
        paths.push(locales);
        proof {
            assert(paths@.map_values(|p: String| p@) =~= required_paths_spec(root@));
        }
        paths
    }

    /// The distribution rooted at `root`, given which of its required paths exist
    /// (`present[i]` for `required_paths(root)[i]`); the first missing one is reported.
    pub fn from_root(root: String, present: &Vec<bool>) -> (r: Result<CefDistribution, ChromiumError>)
        requires
            present@.len() == 3,
        ensures
            !present@[0] ==> (r matches Err(ChromiumError::RequiredPathMissing(path)) && path@
                == required_paths_spec(root@)[0]),
            present@[0] && !present@[1] ==> (r matches Err(ChromiumError::RequiredPathMissing(path))
                && path@ == required_paths_spec(root@)[1]),
            present@[0] && present@[1] && !present@[2] ==> (r matches Err(
                ChromiumError::RequiredPathMissing(path),
            ) && path@ == required_paths_spec(root@)[2]),
            present@[0] && present@[1] && present@[2] ==> (r matches Ok(distribution)
                && distribution.root@ == root@ && distribution.framework_binary@
                == required_paths_spec(root@)[0] && distribution.resources@
                == required_paths_spec(root@)[1] && distribution.locales@
                == required_paths_spec(root@)[2]),
    {
        let mut paths = CefDistribution::required_paths(root.as_str());
        proof {
            assert(paths@.map_values(|p: String| p@).len() == 3);
            assert(paths@.len() == 3);
            assert(paths@.map_values(|p: String| p@)[0] == paths@[0]@);
            assert(paths@.map_values(|p: String| p@)[1] == paths@[1]@);
            assert(paths@.map_values(|p: String| p@)[2] == paths@[2]@);
        }
        let mut i: usize = 0;
        while i < 3
            invariant
                i <= 3,
                present@.len() == 3,
                paths@.len() == 3,
                forall|j: int| 0 <= j < 3 ==> (#[trigger] paths@[j])@ == required_paths_spec(root@)[j],
                forall|j: int| 0 <= j < i ==> present@[j],
            decreases 3 - i,
        {
            if !present[i] {
                return Err(ChromiumError::RequiredPathMissing(paths[i].clone()));
            }
            i = i + 1;
        }
        let locales = paths.pop().unwrap();
        let resources = paths.pop().unwrap();
        let framework_binary = paths.pop().unwrap();
        Ok(CefDistribution { root, framework_binary, resources, locales })
    }
}

/// Runs the current process as a CEF helper; this build has no Chromium runtime,
/// so it always reports that.
pub fn run_subprocess() -> (r: Result<i32, ChromiumError>)
    ensures
        r matches Err(ChromiumError::RuntimeFeatureDisabled),
{
    Err(ChromiumError::RuntimeFeatureDisabled)
}

} // verus!
