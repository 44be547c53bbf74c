//! Per-page navigation state: history, the history cursor and the id of the
//! navigation whose result the page accepts.

use vstd::prelude::*;

use crate::types::{LoadStage, NavigationId, PageId};
use crate::url::{spec_url_parse, WebUrl};

verus! {

/// What the session knows of one page.
pub struct PageView {
    pub history: Seq<Seq<char>>,
    pub cursor: nat,
    pub navigation_id: u64,
}

/// A page's state is consistent: an empty history has cursor 0, and otherwise the
/// cursor points into the history.
pub open spec fn consistent(page: PageView) -> bool {
    if page.history.len() == 0 {
        page.cursor == 0
    } else {
        page.cursor < page.history.len()
    }
}

pub open spec fn fresh_page() -> PageView {
    PageView { history: Seq::empty(), cursor: 0, navigation_id: 0 }
}

pub open spec fn next_navigation(id: u64) -> u64 {
    if id == u64::MAX {
        u64::MAX
    } else {
        (id + 1) as u64
    }
}

/// The page after a new navigation to `url` starts: forward history is dropped
/// and the URL becomes the current entry.
pub open spec fn navigated(page: PageView, url: Seq<char>) -> PageView {
    let kept = if page.history.len() == 0 {
        page.history
    } else {
        page.history.take(page.cursor + 1int)
    };
    PageView {
        history: kept.push(url),
        cursor: kept.len(),
        navigation_id: next_navigation(page.navigation_id),
    }
}

/// The page after a history navigation moves its cursor to `cursor`.
pub open spec fn moved(page: PageView, cursor: nat) -> PageView {
    PageView {
        history: page.history,
        cursor,
        navigation_id: next_navigation(page.navigation_id),
    }
}

pub open spec fn can_go_back_spec(page: Option<PageView>) -> bool {
    page matches Some(p) && p.history.len() > 0 && p.cursor > 0
}

pub open spec fn can_go_forward_spec(page: Option<PageView>) -> bool {
    page matches Some(p) && p.cursor + 1 < p.history.len()
}

/// What a page-scoped command does.
#[derive(Clone, Debug)]
pub enum BrowserCommand {
    Navigate { page_id: PageId, url: String },
    Back { page_id: PageId },
    Forward { page_id: PageId },
    Reload { page_id: PageId },
    Stop { page_id: PageId },
}

#[derive(Clone, Debug)]
pub enum BrowserEvent {
    NavigationStarted { page_id: PageId, navigation_id: NavigationId, url: String },
    LoadStageChanged { page_id: PageId, navigation_id: NavigationId, stage: LoadStage },
    TitleChanged { page_id: PageId, navigation_id: NavigationId, title: String },
    NavigationFinished { page_id: PageId, navigation_id: NavigationId, final_url: String },
    NavigationFailed { page_id: PageId, navigation_id: NavigationId, message: String },
    Ignored,
}

/// The event that starting a navigation of `page` to `url` reports.
pub open spec fn started(event: BrowserEvent, page_id: Seq<char>, navigation_id: u64, url: Seq<char>) -> bool {
    event matches BrowserEvent::NavigationStarted { page_id: p, navigation_id: n, url: u } && p.0@
        == page_id && n.0 == navigation_id && u@ == url
}

#[derive(Clone, Debug)]
struct PageState {
    history: Vec<String>,
    cursor: usize,
    navigation_id: NavigationId,
}

impl PageState {
    closed spec fn view_page(&self) -> PageView {
        PageView {
            history: self.history@.map_values(|u: String| u@),
            cursor: self.cursor as nat,
            navigation_id: self.navigation_id.0,
        }
    }

    fn fresh() -> (r: PageState)
        ensures
            r.view_page() == fresh_page(),
    {
        let r = PageState { history: Vec::new(), cursor: 0, navigation_id: NavigationId::zero() };
        proof {
            assert(r.view_page().history =~= Seq::<Seq<char>>::empty());
        }
        r
    }

    /// Starts a navigation to the current history entry.
    fn start(&mut self, page_id: PageId) -> (r: BrowserEvent)
        requires
            old(self).history.len() > 0,
            old(self).cursor < old(self).history.len(),
        ensures
            final(self).view_page() == (PageView {
                navigation_id: next_navigation(old(self).view_page().navigation_id),
                ..old(self).view_page()
            }),
            started(
                r,
                page_id.0@,
                next_navigation(old(self).view_page().navigation_id),
                old(self).view_page().history[old(self).cursor as int],
            ),
    {
        self.navigation_id = self.navigation_id.saturating_next();
        let url = self.history[self.cursor].clone();
        BrowserEvent::NavigationStarted { page_id, navigation_id: self.navigation_id, url }
    }
}

/// The navigation state of every open page.
pub struct Session {
    pages: Vec<(PageId, PageState)>,
}

/// The state recorded for `id` in a list of pages, if any.
pub open spec fn page_in(pages: Seq<(Seq<char>, PageView)>, id: Seq<char>) -> Option<PageView>
    decreases pages.len(),
{
    if pages.len() == 0 {
        None
    } else if pages[0].0 == id {
        Some(pages[0].1)
    } else {
        page_in(pages.drop_first(), id)
    }
}

impl Session {
    pub closed spec fn pages_view(&self) -> Seq<(Seq<char>, PageView)> {
        self.pages@.map_values(|e: (PageId, PageState)| (e.0.0@, e.1.view_page()))
    }

    /// The state of page `id`.
    pub open spec fn page(&self, id: Seq<char>) -> Option<PageView> {
        page_in(self.pages_view(), id)
    }

    /// Every page of a well-formed session is consistent: its cursor lies within
    /// its history (or is 0 for an empty history).
    pub proof fn lemma_page_consistent(&self, id: Seq<char>)
        requires
            self.wf(),
        ensures
            self.page(id) matches Some(page) ==> consistent(page),
    {
        let pages = self.pages_view();
        assert forall|j: int| 0 <= j < pages.len() implies consistent(#[trigger] pages[j].1) by {
            assert(pages[j].1 == self.pages@[j].1.view_page());
        }
        lemma_page_in_consistent(pages, id);
    }

    /// Each page appears once and its state is consistent.
    pub closed spec fn wf(&self) -> bool {
        &&& forall|i: int, j: int|
            0 <= i < j < self.pages@.len() ==> #[trigger] self.pages@[i].0.0@ != #[trigger] self.pages@[j].0.0@
        &&& forall|i: int| 0 <= i < self.pages@.len() ==> consistent(#[trigger] self.pages@[i].1.view_page())
    }

    pub fn new() -> (r: Session)
        ensures
            r.wf(),
            forall|id: Seq<char>| r.page(id) is None,
    {
        let r = Session { pages: Vec::new() };
        proof {
            assert(r.pages_view() =~= Seq::<(Seq<char>, PageView)>::empty());
        }
        r
    }

    fn index_of(&self, page_id: &PageId) -> (r: Option<usize>)
        requires
            self.wf(),
        ensures
            match r {
                Some(i) => i < self.pages@.len() && self.pages@[i as int].0.0@ == page_id.0@
                    && self.page(page_id.0@) == Some(self.pages@[i as int].1.view_page()),
                None => self.page(page_id.0@) is None,
            },
    {
        let mut i: usize = 0;
        while i < self.pages.len()
            invariant
                i <= self.pages.len(),
                self.wf(),
                forall|j: int| 0 <= j < i ==> self.pages@[j].0.0@ != page_id.0@,
            decreases self.pages.len() - i,
        {
            if self.pages[i].0.same(page_id) {
                proof {
                    lemma_page_in_at(self.pages_view(), page_id.0@, i as int);
                }
                return Some(i);
            }
            i = i + 1;
        }
        proof {
            lemma_page_in_absent(self.pages_view(), page_id.0@);
        }
        None
    }

    /// Registers a page with an empty history, unless it is open already.
    pub fn open_page(&mut self, page_id: PageId)
        requires
            old(self).wf(),
        ensures
            final(self).wf(),
            forall|id: Seq<char>|
                #[trigger] final(self).page(id) == if id == page_id.0@ && old(self).page(id) is None {
                    Some(fresh_page())
                } else {
                    old(self).page(id)
                },
    {
        match self.index_of(&page_id) {
            Some(_) => {},
            None => {
                let state = PageState::fresh();
                self.insert_new(page_id, state);
            },
        }
    }

    fn insert_new(&mut self, page_id: PageId, state: PageState)
        requires
            old(self).wf(),
            old(self).page(page_id.0@) is None,
            consistent(state.view_page()),
        ensures
            final(self).wf(),
            forall|id: Seq<char>|
                #[trigger] final(self).page(id) == if id == page_id.0@ {
                    Some(state.view_page())
                } else {
                    old(self).page(id)
                },
    {
        let ghost before = self.pages_view();
        let ghost key = page_id.0@;
        let ghost page = state.view_page();
        proof {
            lemma_page_in_none_all(before, key);
        }
        self.pages.push((page_id, state));
        proof {
            assert(self.pages_view() =~= before.push((key, page)));
            assert forall|id: Seq<char>| #[trigger] page_in(self.pages_view(), id) == if id == key {
                Some(page)
            } else {
                page_in(before, id)
            } by {
                lemma_page_in_push(before, key, page, id);
            }
            assert forall|i: int, j: int| 0 <= i < j < self.pages@.len() implies #[trigger] self.pages@[i].0.0@
                != #[trigger] self.pages@[j].0.0@ by {
                if j == self.pages@.len() - 1 {
                    assert(before[i].0 == self.pages@[i].0.0@);
                }
            }
        }
    }

    fn replace_at(&mut self, index: usize, state: PageState)
        requires
            old(self).wf(),
            index < old(self).pages@.len(),
            consistent(state.view_page()),
        ensures
            final(self).wf(),
            forall|id: Seq<char>|
                #[trigger] final(self).page(id) == if id == old(self).pages@[index as int].0.0@ {
                    Some(state.view_page())
                } else {
                    old(self).page(id)
                },
    {
        let ghost before = self.pages_view();
        let ghost page = state.view_page();
        let page_id = self.pages[index].0.copy();
        let ghost key = page_id.0@;
        self.pages.set(index, (page_id, state));
        proof {
            assert(self.pages_view() =~= before.update(index as int, (key, page)));
            assert forall|id: Seq<char>| #[trigger] page_in(self.pages_view(), id) == if id == key {
                Some(page)
            } else {
                page_in(before, id)
            } by {
                lemma_page_in_update(before, index as int, page, id);
            }
        }
    }

    /// Replaces a page's state with a history that holds only `url`.
    pub fn restore_page(&mut self, page_id: PageId, url: String)
        requires
            old(self).wf(),
        ensures
            final(self).wf(),
            forall|id: Seq<char>|
                #[trigger] final(self).page(id) == if id == page_id.0@ {
                    Some(PageView { history: seq![url@], cursor: 0, navigation_id: 0 })
                } else {
                    old(self).page(id)
                },
    {
        let mut history: Vec<String> = Vec::new();
        history.push(url);
        let state = PageState { history, cursor: 0, navigation_id: NavigationId::zero() };
        proof {
            assert(state.view_page().history =~= seq![url@]);
        }
        match self.index_of(&page_id) {
            Some(index) => self.replace_at(index, state),
            None => self.insert_new(page_id, state),
        }
    }

    pub fn close_page(&mut self, page_id: &PageId)
        requires
            old(self).wf(),
        ensures
            final(self).wf(),
            forall|id: Seq<char>|
                #[trigger] final(self).page(id) == if id == page_id.0@ {
                    None
                } else {
                    old(self).page(id)
                },
    {
        match self.index_of(page_id) {
            Some(index) => {
                let ghost before = self.pages_view();
                let ghost key = page_id.0@;
                self.pages.remove(index);
                proof {
                    assert(self.pages_view() =~= before.remove(index as int));
                    assert forall|id: Seq<char>| #[trigger] page_in(self.pages_view(), id) == if id
                        == key {
                        None
                    } else {
                        page_in(before, id)
                    } by {
                        lemma_page_in_remove(before, index as int, id);
                    }
                    assert forall|i: int, j: int| 0 <= i < j < self.pages@.len() implies #[trigger] self.pages@[i].0.0@
                        != #[trigger] self.pages@[j].0.0@ by {
                        assert(self.pages@[i] == old(self).pages@[if i < index { i } else { i + 1 }]);
                        assert(self.pages@[j] == old(self).pages@[if j < index { j } else { j + 1 }]);
                    }
                    assert forall|i: int| 0 <= i < self.pages@.len() implies consistent(
                        #[trigger] self.pages@[i].1.view_page(),
                    ) by {
                        assert(self.pages@[i] == old(self).pages@[if i < index { i } else { i + 1 }]);
                    }
                }
            },
            None => {},
        }
    }

    pub fn can_go_back(&self, page_id: &PageId) -> (r: bool)
        requires
            self.wf(),
        ensures
            r == can_go_back_spec(self.page(page_id.0@)),
    {
        match self.index_of(page_id) {
            Some(index) => {
                let page = &self.pages[index].1;
                page.history.len() > 0 && page.cursor > 0
            },
            None => false,
        }
    }

    pub fn can_go_forward(&self, page_id: &PageId) -> (r: bool)
        requires
            self.wf(),
        ensures
            r == can_go_forward_spec(self.page(page_id.0@)),
    {
        match self.index_of(page_id) {
            Some(index) => {
                let page = &self.pages[index].1;
                proof {
                    assert(consistent(self.pages@[index as int].1.view_page()));
                }
                page.history.len() > 0 && page.cursor < page.history.len() - 1
            },
            None => false,
        }
    }

    pub fn current_url(&self, page_id: &PageId) -> (r: Option<String>)
        requires
            self.wf(),
        ensures
            match self.page(page_id.0@) {
                Some(p) if p.history.len() > 0 => r matches Some(u) && u@ == p.history[p.cursor as int],
                _ => r is None,
            },
    {
        match self.index_of(page_id) {
            Some(index) => {
                let page = &self.pages[index].1;
                proof {
                    assert(consistent(self.pages@[index as int].1.view_page()));
                }
                if page.cursor < page.history.len() {
                    Some(page.history[page.cursor].clone())
                } else {
                    None
                }
            },
            None => None,
        }
    }

    /// Whether a result of navigation `navigation_id` may still be applied to the page.
    pub fn accepts(&self, page_id: &PageId, navigation_id: NavigationId) -> (r: bool)
        requires
            self.wf(),
        ensures
            r == (self.page(page_id.0@) matches Some(p) && p.navigation_id == navigation_id.0),
    {
        match self.index_of(page_id) {
            Some(index) => self.pages[index].1.navigation_id == navigation_id,
            None => false,
        }
    }

    /// Replaces the current history entry with the final URL of the navigation that
    /// the page accepts; `false` when the page is missing, the navigation is stale or
    /// the history is empty.
    pub fn commit_final_url(&mut self, page_id: &PageId, navigation_id: NavigationId, final_url: String) -> (r:
        bool)
        requires
            old(self).wf(),
        ensures
            final(self).wf(),
            r == (old(self).page(page_id.0@) matches Some(p) && p.navigation_id == navigation_id.0
                && p.history.len() > 0),
            forall|id: Seq<char>|
                #[trigger] final(self).page(id) == if r && id == page_id.0@ {
                    let p = old(self).page(id)->0;
                    Some(PageView { history: p.history.update(p.cursor as int, final_url@), ..p })
                } else {
                    old(self).page(id)
                },
    {
        let index = match self.index_of(page_id) {
            Some(index) => index,
            None => return false,
        };
        if self.pages[index].1.navigation_id != navigation_id {
            return false;
        }
        proof {
            assert(consistent(self.pages@[index as int].1.view_page()));
        }
        if self.pages[index].1.cursor >= self.pages[index].1.history.len() {
            return false;
        }
        let mut state = self.pages[index].1.clone_state();
        let cursor = state.cursor;
        state.history.set(cursor, final_url);
        proof {
            assert(state.view_page().history =~= old(self).pages@[index as int].1.view_page().history.update(
                cursor as int,
                final_url@,
            ));
        }
        self.replace_at(index, state);
        true
    }

    /// Applies one page command and reports the event that it causes.
    pub fn handle(&mut self, command: BrowserCommand) -> (r: BrowserEvent)
        requires
            old(self).wf(),
        ensures
            final(self).wf(),
            match command {
                BrowserCommand::Navigate { page_id, url } => {
                    let before = match old(self).page(page_id.0@) {
                        Some(p) => p,
                        None => fresh_page(),
                    };
                    let after = navigated(before, url@);
                    &&& final(self).page(page_id.0@) == Some(after)
                    &&& started(r, page_id.0@, after.navigation_id, url@)
                    &&& forall|id: Seq<char>| id != page_id.0@ ==> #[trigger] final(self).page(id)
                        == old(self).page(id)
                },
                BrowserCommand::Back { page_id } => match old(self).page(page_id.0@) {
                    Some(p) if p.cursor > 0 => {
                        let after = moved(p, (p.cursor - 1) as nat);
                        &&& final(self).page(page_id.0@) == Some(after)
                        &&& started(r, page_id.0@, after.navigation_id, p.history[p.cursor - 1])
                        &&& forall|id: Seq<char>| id != page_id.0@ ==> #[trigger] final(self).page(id)
                            == old(self).page(id)
                    },
                    _ => r is Ignored && forall|id: Seq<char>| #[trigger] final(self).page(id)
                        == old(self).page(id),
                },
                BrowserCommand::Forward { page_id } => match old(self).page(page_id.0@) {
                    Some(p) if p.cursor + 1 < p.history.len() => {
                        let after = moved(p, p.cursor + 1);
                        &&& final(self).page(page_id.0@) == Some(after)
                        &&& started(r, page_id.0@, after.navigation_id, p.history[p.cursor + 1int])
                        &&& forall|id: Seq<char>| id != page_id.0@ ==> #[trigger] final(self).page(id)
                            == old(self).page(id)
                    },
                    _ => r is Ignored && forall|id: Seq<char>| #[trigger] final(self).page(id)
                        == old(self).page(id),
                },
                BrowserCommand::Reload { page_id } => match old(self).page(page_id.0@) {
                    Some(p) if p.history.len() > 0 => {
                        let after = moved(p, p.cursor);
                        &&& final(self).page(page_id.0@) == Some(after)
                        &&& started(r, page_id.0@, after.navigation_id, p.history[p.cursor as int])
                        &&& forall|id: Seq<char>| id != page_id.0@ ==> #[trigger] final(self).page(id)
                            == old(self).page(id)
                    },
                    _ => r is Ignored && forall|id: Seq<char>| #[trigger] final(self).page(id)
                        == old(self).page(id),
                },
                BrowserCommand::Stop { page_id } => match old(self).page(page_id.0@) {
                    Some(p) => {
                        &&& final(self).page(page_id.0@) == Some(
                            PageView { navigation_id: next_navigation(p.navigation_id), ..p },
                        )
                        &&& r matches BrowserEvent::LoadStageChanged {
                            page_id: event_page,
                            navigation_id,
                            stage,
                        }
                        &&& event_page.0@ == page_id.0@
                        &&& navigation_id.0 == p.navigation_id
                        &&& stage == LoadStage::Cancelled
                        &&& forall|id: Seq<char>| id != page_id.0@ ==> #[trigger] final(self).page(id)
                            == old(self).page(id)
                    },
                    None => r is Ignored && forall|id: Seq<char>| #[trigger] final(self).page(id)
                        == old(self).page(id),
                },
            },
    {
        match command {
            BrowserCommand::Navigate { page_id, url } => {
                let (index, mut state) = match self.index_of(&page_id) {
                    Some(index) => (Some(index), self.pages[index].1.clone_state()),
                    None => (None, PageState::fresh()),
                };
                let ghost before = state.view_page();
                proof {
                    if index is Some {
                        assert(consistent(self.pages@[index->0 as int].1.view_page()));
                    }
                }
                if state.history.len() > 0 {
                    state.history.truncate(state.cursor + 1);
                }
                let ghost kept = state.history@;
                state.history.push(url);
                state.cursor = state.history.len() - 1;
                proof {
                    assert(state.history@.map_values(|u: String| u@) =~= (if before.history.len() == 0 {
                        before.history
                    } else {
                        before.history.take(before.cursor + 1int)
                    }).push(url@));
                }
                let event = state.start(page_id.copy());
                match index {
                    Some(index) => self.replace_at(index, state),
                    None => self.insert_new(page_id, state),
                }
                event
            },
            BrowserCommand::Back { page_id } => {
                let index = match self.index_of(&page_id) {
                    Some(index) => index,
                    None => return BrowserEvent::Ignored,
                };
                proof {
                    assert(consistent(self.pages@[index as int].1.view_page()));
                }
                if self.pages[index].1.cursor == 0 {
                    return BrowserEvent::Ignored;
                }
                let mut state = self.pages[index].1.clone_state();
                state.cursor = state.cursor - 1;
                let event = state.start(page_id);
                self.replace_at(index, state);
                event
            },
            BrowserCommand::Forward { page_id } => {
                let index = match self.index_of(&page_id) {
                    Some(index) => index,
                    None => return BrowserEvent::Ignored,
                };
                proof {
                    assert(consistent(self.pages@[index as int].1.view_page()));
                }
                if self.pages[index].1.history.len() == 0 || self.pages[index].1.cursor >= self.pages[index].1.history.len() - 1 {
                    return BrowserEvent::Ignored;
                }
                let mut state = self.pages[index].1.clone_state();
                state.cursor = state.cursor + 1;
                let event = state.start(page_id);
                self.replace_at(index, state);
                event
            },
            BrowserCommand::Reload { page_id } => {
                let index = match self.index_of(&page_id) {
                    Some(index) => index,
                    None => return BrowserEvent::Ignored,
                };
                proof {
                    assert(consistent(self.pages@[index as int].1.view_page()));
                }
                if self.pages[index].1.cursor >= self.pages[index].1.history.len() {
                    return BrowserEvent::Ignored;
                }
                let mut state = self.pages[index].1.clone_state();
                let event = state.start(page_id);
                self.replace_at(index, state);
                event
            },
            BrowserCommand::Stop { page_id } => {
                let index = match self.index_of(&page_id) {
                    Some(index) => index,
                    None => return BrowserEvent::Ignored,
                };
                proof {
                    assert(consistent(self.pages@[index as int].1.view_page()));
                }
                let mut state = self.pages[index].1.clone_state();
                let navigation_id = state.navigation_id;
                state.navigation_id = state.navigation_id.saturating_next();
                self.replace_at(index, state);
                BrowserEvent::LoadStageChanged { page_id, navigation_id, stage: LoadStage::Cancelled }
            },
        }
    }
}

impl PageState {
    fn clone_state(&self) -> (r: PageState)
        ensures
            r.view_page() == self.view_page(),
            r.cursor == self.cursor,
            r.history.len() == self.history.len(),
    {
        let mut history: Vec<String> = Vec::new();
        let mut i: usize = 0;
        while i < self.history.len()
            invariant
                i <= self.history.len(),
                history@.len() == i,
                forall|j: int| 0 <= j < i ==> #[trigger] history@[j]@ == self.history@[j]@,
            decreases self.history.len() - i,
        {
            history.push(self.history[i].clone());
            i = i + 1;
        }
        let r = PageState { history, cursor: self.cursor, navigation_id: self.navigation_id };
        proof {
            assert(r.view_page().history =~= self.view_page().history);
        }
        r
    }
}

/// Starting a navigation keeps a page consistent, and the new entry is current
/// with no entry after it: navigating drops forward history.
pub proof fn law_navigation_drops_forward_history(page: PageView, url: Seq<char>)
    requires
        consistent(page),
    ensures
        consistent(navigated(page, url)),
        navigated(page, url).history[navigated(page, url).cursor as int] == url,
        !can_go_forward_spec(Some(navigated(page, url))),
{
}

/// Going back and then forward returns to the entry that was current, and neither
/// step changes the history.
pub proof fn law_back_then_forward_returns(page: PageView)
    requires
        consistent(page),
        can_go_back_spec(Some(page)),
    ensures
        moved(page, (page.cursor - 1) as nat).history == page.history,
        can_go_forward_spec(Some(moved(page, (page.cursor - 1) as nat))),
        moved(moved(page, (page.cursor - 1) as nat), page.cursor).history[page.cursor as int]
            == page.history[page.cursor as int],
{
}

/// Every new navigation, history move or stop gives the page a new navigation id,
/// so a result of the previous navigation is no longer accepted (until the ids
/// saturate at the largest value).
pub proof fn law_new_navigation_rejects_stale_results(page: PageView, url: Seq<char>, cursor: nat)
    requires
        page.navigation_id < u64::MAX,
    ensures
        navigated(page, url).navigation_id != page.navigation_id,
        moved(page, cursor).navigation_id != page.navigation_id,
        next_navigation(page.navigation_id) != page.navigation_id,
        navigated(page, url).navigation_id > page.navigation_id,
{
}

/// After the final URL of the accepted navigation is committed, a reload starts a
/// navigation to that URL.
pub proof fn law_reload_uses_committed_url(page: PageView, final_url: Seq<char>)
    requires
        consistent(page),
        page.history.len() > 0,
    ensures
        ({
            let committed = PageView { history: page.history.update(page.cursor as int, final_url), ..page };
            moved(committed, committed.cursor).history[committed.cursor as int] == final_url
        }),
{
}

proof fn lemma_page_in_consistent(pages: Seq<(Seq<char>, PageView)>, id: Seq<char>)
    requires
        forall|j: int| 0 <= j < pages.len() ==> consistent(#[trigger] pages[j].1),
    ensures
        page_in(pages, id) matches Some(page) ==> consistent(page),
    decreases pages.len(),
{
    if pages.len() > 0 {
        assert forall|j: int| 0 <= j < pages.drop_first().len() implies consistent(#[trigger] pages.drop_first()[j].1) by {
            assert(pages.drop_first()[j] == pages[j + 1]);
        }
        assert(consistent(pages[0].1));
        lemma_page_in_consistent(pages.drop_first(), id);
    }
}

proof fn lemma_page_in_at(pages: Seq<(Seq<char>, PageView)>, id: Seq<char>, i: int)
    requires
        0 <= i < pages.len(),
        pages[i].0 == id,
        forall|j: int| 0 <= j < i ==> pages[j].0 != id,
    ensures
        page_in(pages, id) == Some(pages[i].1),
    decreases i,
{
    if i > 0 {
        assert forall|j: int| 0 <= j < i - 1 implies pages.drop_first()[j].0 != id by {
            assert(pages.drop_first()[j] == pages[j + 1]);
        }
        lemma_page_in_at(pages.drop_first(), id, i - 1);
    }
}

proof fn lemma_page_in_absent(pages: Seq<(Seq<char>, PageView)>, id: Seq<char>)
    requires
        forall|j: int| 0 <= j < pages.len() ==> pages[j].0 != id,
    ensures
        page_in(pages, id) is None,
    decreases pages.len(),
{
    if pages.len() > 0 {
        assert forall|j: int| 0 <= j < pages.drop_first().len() implies pages.drop_first()[j].0 != id by {
            assert(pages.drop_first()[j] == pages[j + 1]);
        }
        lemma_page_in_absent(pages.drop_first(), id);
    }
}

proof fn lemma_page_in_none_all(pages: Seq<(Seq<char>, PageView)>, id: Seq<char>)
    requires
        page_in(pages, id) is None,
    ensures
        forall|j: int| 0 <= j < pages.len() ==> pages[j].0 != id,
    decreases pages.len(),
{
    if pages.len() > 0 {
        lemma_page_in_none_all(pages.drop_first(), id);
        assert forall|j: int| 0 <= j < pages.len() implies pages[j].0 != id by {
            if j > 0 {
                assert(pages.drop_first()[j - 1] == pages[j]);
            }
        }
    }
}

proof fn lemma_page_in_push(pages: Seq<(Seq<char>, PageView)>, key: Seq<char>, page: PageView, id: Seq<char>)
    requires
        forall|j: int| 0 <= j < pages.len() ==> pages[j].0 != key,
    ensures
        page_in(pages.push((key, page)), id) == if id == key {
            Some(page)
        } else {
            page_in(pages, id)
        },
    decreases pages.len(),
{
    if pages.len() == 0 {
        assert(pages.push((key, page)).drop_first() =~= pages);
    } else {
        assert(pages.push((key, page)).drop_first() =~= pages.drop_first().push((key, page)));
        assert forall|j: int| 0 <= j < pages.drop_first().len() implies pages.drop_first()[j].0 != key by {
            assert(pages.drop_first()[j] == pages[j + 1]);
        }
        lemma_page_in_push(pages.drop_first(), key, page, id);
    }
}

proof fn lemma_page_in_update(pages: Seq<(Seq<char>, PageView)>, index: int, page: PageView, id: Seq<char>)
    requires
        0 <= index < pages.len(),
        forall|i: int, j: int| 0 <= i < j < pages.len() ==> pages[i].0 != pages[j].0,
    ensures
        page_in(pages.update(index, (pages[index].0, page)), id) == if id == pages[index].0 {
            Some(page)
        } else {
            page_in(pages, id)
        },
    decreases pages.len(),
{
    let updated = pages.update(index, (pages[index].0, page));
    if index == 0 {
        assert(updated.drop_first() =~= pages.drop_first());
    } else {
        assert(updated.drop_first() =~= pages.drop_first().update(index - 1, (pages[index].0, page)));
        assert forall|i: int, j: int| 0 <= i < j < pages.drop_first().len() implies pages.drop_first()[i].0
            != pages.drop_first()[j].0 by {
            assert(pages.drop_first()[i] == pages[i + 1]);
            assert(pages.drop_first()[j] == pages[j + 1]);
        }
        lemma_page_in_update(pages.drop_first(), index - 1, page, id);
        assert(pages.drop_first()[index - 1] == pages[index]);
    }
}

proof fn lemma_page_in_remove(pages: Seq<(Seq<char>, PageView)>, index: int, id: Seq<char>)
    requires
        0 <= index < pages.len(),
        forall|i: int, j: int| 0 <= i < j < pages.len() ==> pages[i].0 != pages[j].0,
    ensures
        page_in(pages.remove(index), id) == if id == pages[index].0 {
            None
        } else {
            page_in(pages, id)
        },
    decreases pages.len(),
{
    if index == 0 {
        assert(pages.remove(0) =~= pages.drop_first());
        if id == pages[0].0 {
            assert forall|j: int| 0 <= j < pages.drop_first().len() implies pages.drop_first()[j].0 != id by {
                assert(pages.drop_first()[j] == pages[j + 1]);
            }
            lemma_page_in_absent(pages.drop_first(), id);
        }
    } else {
        assert(pages.remove(index).drop_first() =~= pages.drop_first().remove(index - 1));
        assert forall|i: int, j: int| 0 <= i < j < pages.drop_first().len() implies pages.drop_first()[i].0
            != pages.drop_first()[j].0 by {
            assert(pages.drop_first()[i] == pages[i + 1]);
            assert(pages.drop_first()[j] == pages[j + 1]);
        }
        lemma_page_in_remove(pages.drop_first(), index - 1, id);
        assert(pages.drop_first()[index - 1] == pages[index]);
    }
}

/// A navigation that started and waits for its result: the page, the
/// navigation's id, the URL to load and the URL of the top-level document that
/// the load is made for.
#[derive(Debug)]
pub struct PendingNavigation {
    page_id: PageId,
    navigation_id: NavigationId,
    url: WebUrl,
    top_level_url: WebUrl,
}

impl PendingNavigation {
    pub closed spec fn page(self) -> Seq<char> {
        self.page_id.0@
    }

    pub closed spec fn navigation(self) -> u64 {
        self.navigation_id.0
    }

    pub closed spec fn target(self) -> Seq<char> {
        self.url@
    }

    pub closed spec fn top_level(self) -> Seq<char> {
        self.top_level_url@
    }

    pub fn url(&self) -> (r: &WebUrl)
        ensures
            r@ == self.target(),
    {
        &self.url
    }

    pub fn page_id(&self) -> (r: &PageId)
        ensures
            r.0@ == self.page(),
    {
        &self.page_id
    }

    pub fn navigation_id(&self) -> (r: NavigationId)
        ensures
            r.0 == self.navigation(),
    {
        self.navigation_id
    }

    pub fn top_level_url(&self) -> (r: &WebUrl)
        ensures
            r@ == self.top_level(),
    {
        &self.top_level_url
    }
}

/// Why a command did not start a navigation.
#[derive(Debug)]
pub enum NavigationStartError {
    /// The session ignored the command.
    Ignored,
    /// The session's URL does not parse; the message is the parser's.
    InvalidUrl(String),
}

/// The navigation that `event` starts, loaded for the top-level document at
/// `previous_url` (the page's URL before the command) where that parses, else
/// for the new URL itself.
pub fn pending_navigation(event: BrowserEvent, previous_url: Option<String>) -> (r: Result<
    PendingNavigation,
    NavigationStartError,
>)
    ensures
        match event {
            BrowserEvent::NavigationStarted { page_id, navigation_id, url } => match spec_url_parse(url@) {
                Ok(target) => r matches Ok(pending) && pending.page() == page_id.0@ && pending.navigation()
                    == navigation_id.0 && pending.target() == target && pending.top_level() == match previous_url {
                    Some(previous) => match spec_url_parse(previous@) {
                        Ok(top) => top,
                        Err(_) => target,
                    },
                    None => target,
                },
                Err(message) => r matches Err(NavigationStartError::InvalidUrl(m)) && m@ == message,
            },
            _ => r matches Err(NavigationStartError::Ignored),
        },
{
    match event {
        BrowserEvent::NavigationStarted { page_id, navigation_id, url } => {
            let target = match WebUrl::parse(url.as_str()) {
                Ok(target) => target,
                Err(error) => {
                    return Err(NavigationStartError::InvalidUrl(String::from_str(error.message())));
                },
            };
            let top_level_url = match previous_url {
                Some(previous) => match WebUrl::parse(previous.as_str()) {
                    Ok(top) => top,
                    Err(_) => target.duplicate(),
                },
                None => target.duplicate(),
            };
            Ok(PendingNavigation { page_id, navigation_id, url: target, top_level_url })
        },
        _ => Err(NavigationStartError::Ignored),
    }
}

} // verus!
