//! The browser shell's decisions: what the address bar makes of its input,
//! which internal pages exist, what an error is titled, which tab is selected
//! after a close, and when a page is hibernated.

use vstd::prelude::*;

use crate::forms::ControlId;
use crate::i18n::Language;
use crate::net::LoadErrorKind;
use crate::store::{HistoryEntry, Page};
use crate::text::{
    all_ascii, ascii_lower, lemma_trim_keeps_ascii, contains, decimal, decimal_string, has_char, is_white_space, is_white_space_char, spec_to_lowercase, starts_with,
    str_contains, str_eq, str_starts_with, to_lowercase, trim, trimmed, chars_of,
};
use crate::url::{spec_url_parse, UrlParseError, WebUrl};

verus! {

pub const ABOUT_BLANK: &'static str = "about:blank";

pub const ARCHETYPE_HISTORY: &'static str = "archetype://history";

pub const ARCHETYPE_SETTINGS_APPEARANCE: &'static str = "archetype://settings/appearance";

pub const ARCHETYPE_SETTINGS_ABOUT: &'static str = "archetype://settings/about";

/// The number of history entries that the history page shows.
pub const HISTORY_PAGE_LIMIT: usize = 1000;

/// The number of rendered pages kept in memory before switching tabs hibernates one.
pub const MAX_RESIDENT_RENDERED_PAGES: usize = 8;

#[derive(Clone, Copy, Debug, PartialEq, Eq, Structural)]
pub enum TabIconMode {
    Default,
    Favicon,
    Loading,
}

/// A loading tab shows the spinner; otherwise its favicon, if it has one.
pub fn tab_icon_mode(is_loading: bool, has_favicon: bool) -> (r: TabIconMode)
    ensures
        r == if is_loading {
            TabIconMode::Loading
        } else if has_favicon {
            TabIconMode::Favicon
        } else {
            TabIconMode::Default
        },
{
    if is_loading {
        TabIconMode::Loading
    } else if has_favicon {
        TabIconMode::Favicon
    } else {
        TabIconMode::Default
    }
}

/// Why a page could not be rendered.
#[derive(Clone, Copy, Debug, PartialEq, Eq, Structural)]
pub enum RenderErrorKind {
    Load(LoadErrorKind),
    Parse,
    Render,
}

/// The title of a load failure of kind `kind`.
pub open spec fn load_error_title_spec(language: Language, kind: LoadErrorKind) -> Seq<char> {
    match kind {
        LoadErrorKind::UnsupportedScheme | LoadErrorKind::InvalidFileUrl => language.pick(
            "不支持的地址"@,
            "Unsupported address"@,
        ),
        LoadErrorKind::ResourceTooLarge => language.pick("资源过大"@, "Resource too large"@),
        LoadErrorKind::File => language.pick("文件不可用"@, "File unavailable"@),
        LoadErrorKind::Timeout => language.pick("请求超时"@, "Request timed out"@),
        LoadErrorKind::Tls => language.pick("证书验证失败"@, "Certificate validation failed"@),
        LoadErrorKind::Connection => language.pick("连接失败"@, "Connection failed"@),
        LoadErrorKind::HttpStatus | LoadErrorKind::InvalidRedirect
        | LoadErrorKind::TooManyRedirects => language.pick("HTTP 请求失败"@, "HTTP request failed"@),
        LoadErrorKind::Network => language.pick(
            "安全网络请求失败"@,
            "Secure network request failed"@,
        ),
    }
}

/// The localized title of a load failure.
pub fn load_error_title(language: Language, kind: LoadErrorKind) -> (r: &'static str)
    ensures
        r@ == load_error_title_spec(language, kind),
{
    match kind {
        LoadErrorKind::UnsupportedScheme | LoadErrorKind::InvalidFileUrl => {
            language.unsupported_address()
        },
        LoadErrorKind::ResourceTooLarge => language.resource_too_large(),
        LoadErrorKind::File => language.file_unavailable(),
        LoadErrorKind::Timeout => language.request_timed_out(),
        LoadErrorKind::Tls => language.certificate_validation_failed(),
        LoadErrorKind::Connection => language.connection_failed(),
        LoadErrorKind::HttpStatus | LoadErrorKind::InvalidRedirect
        | LoadErrorKind::TooManyRedirects => language.http_request_failed(),
        LoadErrorKind::Network => language.secure_network_request_failed(),
    }
}

/// The title of a failed navigation, from the first load failure in its cause
/// chain, else the first render failure: a parse failure is titled as such and
/// anything else as a rendering failure.
pub open spec fn navigation_error_title_spec(
    language: Language,
    load: Option<LoadErrorKind>,
    render: Option<RenderErrorKind>,
) -> Seq<char> {
    match load {
        Some(kind) => load_error_title_spec(language, kind),
        None => match render {
            Some(RenderErrorKind::Parse) => language.pick("文档解析失败"@, "Document parsing failed"@),
            _ => language.pick("渲染失败"@, "Rendering failed"@),
        },
    }
}

pub fn navigation_error_title(
    language: Language,
    load: Option<LoadErrorKind>,
    render: Option<RenderErrorKind>,
) -> (r: &'static str)
    ensures
        r@ == navigation_error_title_spec(language, load, render),
{
    match load {
        Some(kind) => load_error_title(language, kind),
        None => match render {
            Some(RenderErrorKind::Parse) => language.document_parsing_failed(),
            _ => language.rendering_failed(),
        },
    }
}

/// An error as the shell shows it: a title and the details.
#[derive(Clone, Debug)]
pub struct ErrorView {
    pub title: &'static str,
    pub detail: String,
}

impl ErrorView {
    /// An error in what the user typed.
    pub fn input(language: Language, detail: &str) -> (r: ErrorView)
        ensures
            r.title@ == language.pick("输入无效"@, "Invalid input"@),
            r.detail@ == detail@,
    {
        ErrorView { title: language.invalid_input(), detail: String::from_str(detail) }
    }

    /// A failure of the application itself, with its message.
    pub fn application(language: Language, message: &str) -> (r: ErrorView)
        ensures
            r.title@ == language.pick("应用程序错误"@, "Application error"@),
            r.detail@ == message@,
    {
        ErrorView { title: language.application_error(), detail: String::from_str(message) }
    }

    /// A failed navigation, titled by the failures found in its cause chain.
    pub fn navigation(
        language: Language,
        load: Option<LoadErrorKind>,
        render: Option<RenderErrorKind>,
        detail: String,
    ) -> (r: ErrorView)
        ensures
            r.title@ == navigation_error_title_spec(language, load, render),
            r.detail@ == detail@,
    {
        ErrorView { title: navigation_error_title(language, load, render), detail }
    }
}

#[derive(Clone, Copy, Debug, PartialEq, Eq, Structural)]
pub enum SettingsSection {
    Appearance,
    About,
}

impl SettingsSection {
    pub fn url(self) -> (r: &'static str)
        ensures
            r@ == match self {
                SettingsSection::Appearance => ARCHETYPE_SETTINGS_APPEARANCE@,
                SettingsSection::About => ARCHETYPE_SETTINGS_ABOUT@,
            },
    {
        match self {
            SettingsSection::Appearance => ARCHETYPE_SETTINGS_APPEARANCE,
            SettingsSection::About => ARCHETYPE_SETTINGS_ABOUT,
        }
    }
}

/// Identifies one form control of one form of one page.
#[derive(Clone, Debug)]
pub struct FormControlKey {
    pub page_id: String,
    pub form_index: usize,
    pub control_id: ControlId,
}

/// The element id of a form control's widget: `form-control-<page>-<form>-<control>`.
pub fn form_control_element_id(key: &FormControlKey) -> (r: String)
    ensures
        r@ == "form-control-"@ + key.page_id@ + "-"@ + decimal(key.form_index as nat) + "-"@
            + decimal(key.control_id.0 as nat),
{
    let mut out = String::from_str("form-control-");
    out.append(key.page_id.as_str());
    out.append("-");
    out.append(decimal_string(key.form_index).as_str());
    out.append("-");
    out.append(decimal_string(key.control_id.0 as usize).as_str());
    proof {
        assert(key.control_id.0 as usize as nat == key.control_id.0 as nat);
    }
    out
}

#[derive(Clone, Copy, Debug, PartialEq, Eq, Structural)]
pub enum HistoryDirection {
    Back,
    Forward,
    Reload,
}

impl HistoryDirection {
    pub fn as_str(self) -> (r: &'static str)
        ensures
            r@ == match self {
                HistoryDirection::Back => "back"@,
                HistoryDirection::Forward => "forward"@,
                HistoryDirection::Reload => "reload"@,
            },
    {
        match self {
            HistoryDirection::Back => "back",
            HistoryDirection::Forward => "forward",
            HistoryDirection::Reload => "reload",
        }
    }
}

/// The URL of the blank page.
pub fn blank_url() -> (r: Result<WebUrl, UrlParseError>)
    ensures
        match r {
            Ok(url) => spec_url_parse(ABOUT_BLANK@) == Ok::<Seq<char>, Seq<char>>(url@),
            Err(error) => spec_url_parse(ABOUT_BLANK@) == Err::<Seq<char>, Seq<char>>(error@),
        },
{
    WebUrl::parse(ABOUT_BLANK)
}

/// The URL of the history page.
pub fn history_url() -> (r: Result<WebUrl, UrlParseError>)
    ensures
        match r {
            Ok(url) => spec_url_parse(ARCHETYPE_HISTORY@) == Ok::<Seq<char>, Seq<char>>(url@),
            Err(error) => spec_url_parse(ARCHETYPE_HISTORY@) == Err::<Seq<char>, Seq<char>>(error@),
        },
{
    WebUrl::parse(ARCHETYPE_HISTORY)
}

pub fn is_blank_page(page: &Page) -> (r: bool)
    ensures
        r == (page.url@ == ABOUT_BLANK@),
{
    str_eq(page.url.as_str(), ABOUT_BLANK)
}

pub fn is_history_page(page: &Page) -> (r: bool)
    ensures
        r == (page.url@ == ARCHETYPE_HISTORY@),
{
    str_eq(page.url.as_str(), ARCHETYPE_HISTORY)
}

/// The settings section that a page shows, if it is a settings page.
pub open spec fn settings_section_spec(url: Seq<char>) -> Option<SettingsSection> {
    if url == ARCHETYPE_SETTINGS_APPEARANCE@ {
        Some(SettingsSection::Appearance)
    } else if url == ARCHETYPE_SETTINGS_ABOUT@ {
        Some(SettingsSection::About)
    } else {
        None
    }
}

pub fn settings_section(page: &Page) -> (r: Option<SettingsSection>)
    ensures
        r == settings_section_spec(page.url@),
{
    if str_eq(page.url.as_str(), ARCHETYPE_SETTINGS_APPEARANCE) {
        Some(SettingsSection::Appearance)
    } else if str_eq(page.url.as_str(), ARCHETYPE_SETTINGS_ABOUT) {
        Some(SettingsSection::About)
    } else {
        None
    }
}

pub fn is_settings_page(page: &Page) -> (r: bool)
    ensures
        r == settings_section_spec(page.url@) is Some,
{
    settings_section(page).is_some()
}

/// The label of a page's tab: the localised name of the history or settings
/// page, else the page's title, or its URL when the title is empty.
pub open spec fn tab_label_spec(language: Language, url: Seq<char>, title: Seq<char>) -> Seq<char> {
    if url == ARCHETYPE_HISTORY@ {
        language.pick("历史记录"@, "History"@)
    } else if settings_section_spec(url) is Some {
        language.pick("设置"@, "Settings"@)
    } else if title.len() == 0 {
        url
    } else {
        title
    }
}

/// The label of `page`'s tab.
pub fn tab_label(language: Language, page: &Page) -> (r: String)
    ensures
        r@ == tab_label_spec(language, page.url@, page.title@),
{
    if is_history_page(page) {
        String::from_str(language.history())
    } else if is_settings_page(page) {
        String::from_str(language.settings())
    } else if page.title.as_str().unicode_len() == 0 {
        page.url.clone()
    } else {
        page.title.clone()
    }
}

/// Internal pages: the blank page and every `archetype://` page.
pub fn is_internal_page(page: &Page) -> (r: bool)
    ensures
        r == (page.url@ == ABOUT_BLANK@ || starts_with(page.url@, "archetype://"@)),
{
    is_blank_page(page) || str_starts_with(page.url.as_str(), "archetype://")
}

/// Whether a history entry matches a search: the trimmed, lower-cased query is
/// empty or occurs in the lower-cased title or URL.
pub open spec fn history_entry_matches_spec(entry: HistoryEntry, query: Seq<char>) -> bool {
    let q = spec_to_lowercase(trim(query));
    q.len() == 0 || contains(spec_to_lowercase(entry.title@), q) || contains(
        spec_to_lowercase(entry.url@),
        q,
    )
}

/// On ASCII text, the match that [`history_entry_matches_spec`] gives: the
/// trimmed query with its letters in lower case is empty or occurs in the title
/// or URL with theirs in lower case.
pub open spec fn ascii_history_entry_matches(entry: HistoryEntry, query: Seq<char>) -> bool {
    let q = ascii_lower(trim(query));
    q.len() == 0 || contains(ascii_lower(entry.title@), q) || contains(ascii_lower(entry.url@), q)
}

pub fn history_entry_matches(entry: &HistoryEntry, query: &str) -> (r: bool)
    ensures
        r == history_entry_matches_spec(*entry, query@),
        all_ascii(query@) && all_ascii(entry.title@) && all_ascii(entry.url@) ==> r
            == ascii_history_entry_matches(*entry, query@),
{
    let trimmed_query = trimmed(query);
    proof {
        if all_ascii(query@) {
            lemma_trim_keeps_ascii(query@);
        }
    }
    let q = to_lowercase(trimmed_query.as_str());
    if q.as_str().is_empty() {
        return true;
    }
    let title = to_lowercase(entry.title.as_str());
    if str_contains(title.as_str(), q.as_str()) {
        return true;
    }
    let url = to_lowercase(entry.url.as_str());
    str_contains(url.as_str(), q.as_str())
}

/// Switching from a selected page to another hibernates one when the resident
/// pages have reached their limit.
pub fn should_hibernate_on_switch(selected_page: Option<&str>, next_page: &str, resident_pages: usize) -> (r: bool)
    ensures
        r == ((selected_page matches Some(selected) && selected@ != next_page@) && resident_pages
            >= MAX_RESIDENT_RENDERED_PAGES),
{
    let switching = match selected_page {
        Some(selected) => !str_eq(selected, next_page),
        None => false,
    };
    switching && resident_pages >= MAX_RESIDENT_RENDERED_PAGES
}

/// Whether an address looks like a host name: no white space, not starting with
/// `.` or `/`, and `localhost`, `localhost:<port>` or containing a dot.
pub open spec fn looks_like_host_spec(address: Seq<char>) -> bool {
    &&& !(exists|i: int| 0 <= i < address.len() && is_white_space(#[trigger] address[i]))
    &&& !starts_with(address, "."@)
    &&& !starts_with(address, "/"@)
    &&& (address == "localhost"@ || starts_with(address, "localhost:"@) || has_char(address, '.'))
}

pub fn looks_like_host(address: &str) -> (r: bool)
    ensures
        r == looks_like_host_spec(address@),
{
    let chars = chars_of(address);
    let mut i: usize = 0;
    let mut dot = false;
    while i < chars.len()
        invariant
            i <= chars.len(),
            chars@ == address@,
            forall|j: int| 0 <= j < i ==> !is_white_space(#[trigger] address@[j]),
            dot == exists|j: int| 0 <= j < i && address@[j] == '.',
        decreases chars.len() - i,
    {
        if is_white_space_char(chars[i]) {
            proof {
                assert(is_white_space(address@[i as int]));
            }
            return false;
        }
        if chars[i] == '.' {
            dot = true;
        }
        i = i + 1;
    }
    !str_starts_with(address, ".") && !str_starts_with(address, "/") && (str_eq(address, "localhost")
        || str_starts_with(address, "localhost:") || dot)
}

/// What the file system says of an address taken as a local path: nothing
/// there, a file URL for the canonical path, or a path that no file URL can hold.
#[derive(Debug)]
pub enum LocalFile {
    Missing,
    Found(WebUrl),
    Unconvertible,
}

/// What the address bar makes of its (trimmed) input, in order: empty is
/// refused; anything with `://` is parsed as a URL; an existing local path
/// becomes its file URL; a host name gets `https://`; anything else that parses
/// as a URL is taken as it is; the rest is refused.
pub open spec fn parse_address_spec(address: Seq<char>, language: Language, local_file: LocalFile) -> Result<
    Seq<char>,
    Seq<char>,
> {
    let a = trim(address);
    if a.len() == 0 {
        Err(language.pick("地址不能为空"@, "Address cannot be empty"@))
    } else if contains(a, "://"@) {
        match spec_url_parse(a) {
            Ok(url) => Ok(url),
            Err(message) => Err(language.pick("URL 无效："@, "Invalid URL: "@) + message),
        }
    } else if local_file is Found {
        Ok(local_file->Found_0@)
    } else if local_file is Unconvertible {
        Err(language.pick("路径无法表示为文件 URL"@, "Path cannot be represented as a file URL"@))
    } else if looks_like_host_spec(a) {
        match spec_url_parse("https://"@ + a) {
            Ok(url) => Ok(url),
            Err(message) => Err(language.pick("URL 无效："@, "Invalid URL: "@) + message),
        }
    } else {
        match spec_url_parse(a) {
            Ok(url) => Ok(url),
            Err(_) => Err(language.pick("地址无效或路径不存在："@, "Invalid address or missing path: "@) + a),
        }
    }
}

/// Turns the address bar's input into a URL; `local_file` is what the file
/// system says of the trimmed input taken as a path.
pub fn parse_address(address: &str, language: Language, local_file: LocalFile) -> (r: Result<WebUrl, String>)
    ensures
        match r {
            Ok(url) => parse_address_spec(address@, language, local_file) == Ok::<Seq<char>, Seq<char>>(url@),
            Err(message) => parse_address_spec(address@, language, local_file) == Err::<Seq<char>, Seq<char>>(message@),
        },
{
    let owned = trimmed(address);
    let a = owned.as_str();
    if a.is_empty() {
        return Err(String::from_str(language.address_empty()));
    }
    if str_contains(a, "://") {
        return match WebUrl::parse(a) {
            Ok(url) => Ok(url),
            Err(error) => Err(language.invalid_url(&error)),
        };
    }
    match local_file {
        LocalFile::Found(url) => {
            return Ok(url);
        },
        LocalFile::Unconvertible => {
            return Err(String::from_str(language.invalid_file_path()));
        },
        LocalFile::Missing => {},
    }
    if looks_like_host(a) {
        let mut candidate = String::from_str("https://");
        candidate.append(a);
        return match WebUrl::parse(candidate.as_str()) {
            Ok(url) => Ok(url),
            Err(error) => Err(language.invalid_url(&error)),
        };
    }
    match WebUrl::parse(a) {
        Ok(url) => Ok(url),
        Err(_) => Err(language.invalid_address(a)),
    }
}

/// The page to select after closing the page at `closing_index`: the one to its
/// right, else the one to its left.
pub fn adjacent_page_id_after_close(pages: &[Page], closing_index: usize) -> (r: Option<String>)
    requires
        closing_index < usize::MAX,
    ensures
        closing_index + 1 < pages@.len() ==> (r matches Some(id) && id@ == pages@[closing_index + 1].id@),
        !(closing_index + 1 < pages@.len()) && 0 < closing_index && closing_index - 1 < pages@.len()
            ==> (r matches Some(id) && id@ == pages@[closing_index - 1].id@),
        !(closing_index + 1 < pages@.len()) && !(0 < closing_index && closing_index - 1 < pages@.len())
            ==> r is None,
{
    if closing_index + 1 < pages.len() {
        Some(pages[closing_index + 1].id.clone())
    } else if closing_index > 0 && closing_index - 1 < pages.len() {
        Some(pages[closing_index - 1].id.clone())
    } else {
        None
    }
}

/// Whether `id` is one of `ids`.
pub open spec fn names_one_of(ids: Seq<Seq<char>>, id: Seq<char>) -> bool {
    exists|i: int| 0 <= i < ids.len() && ids[i] == id
}

/// The text of a saved id, if any.
pub open spec fn saved_view(saved: Option<&str>) -> Option<Seq<char>> {
    match saved {
        Some(id) => Some(id@),
        None => None,
    }
}

/// The selection at start: the saved id where it is one of `ids`, else the
/// first of `ids`, else none.
pub open spec fn initial_selection_spec(saved: Option<Seq<char>>, ids: Seq<Seq<char>>) -> Option<Seq<char>> {
    if saved matches Some(id) && names_one_of(ids, id) {
        saved
    } else if ids.len() > 0 {
        Some(ids[0])
    } else {
        None
    }
}

/// The space or page selected at start, from the saved selection and the ids
/// that the profile holds.
pub fn initial_selection(saved: Option<&str>, ids: &[String]) -> (r: Option<String>)
    ensures
        r matches Some(id) ==> initial_selection_spec(
            saved_view(saved),
            ids@.map_values(|i: String| i@),
        ) == Some(id@),
        r is None ==> initial_selection_spec(
            saved_view(saved),
            ids@.map_values(|i: String| i@),
        ) is None,
{
    let ghost views = ids@.map_values(|i: String| i@);
    if let Some(id) = saved {
        let mut k: usize = 0;
        while k < ids.len()
            invariant
                k <= ids@.len(),
                saved == Some(id),
                views == ids@.map_values(|i: String| i@),
                forall|j: int| 0 <= j < k ==> views[j] != id@,
            decreases ids@.len() - k,
        {
            if str_eq(ids[k].as_str(), id) {
                proof {
                    assert(views[k as int] == id@);
                    assert(names_one_of(views, id@));
                }
                return Some(String::from_str(id));
            }
            k = k + 1;
        }
        proof {
            assert(!names_one_of(views, id@));
        }
    }
    if ids.len() > 0 {
        Some(ids[0].clone())
    } else {
        None
    }
}

/// `localhost`, alone or with a port or anything else after a `:`, looks like a
/// host whenever it holds no white space.
pub proof fn law_localhost_looks_like_a_host(rest: Seq<char>)
    requires
        rest.len() == 0 || rest[0] == ':',
        forall|i: int| 0 <= i < rest.len() ==> !is_white_space(#[trigger] rest[i]),
    ensures
        looks_like_host_spec("localhost"@ + rest),
{
    reveal_strlit("localhost");
    reveal_strlit("localhost:");
    reveal_strlit(".");
    reveal_strlit("/");
    let a = "localhost"@ + rest;
    assert forall|i: int| 0 <= i < a.len() implies !is_white_space(#[trigger] a[i]) by {
        if i >= 9 {
            assert(a[i] == rest[i - 9]);
        }
    }
    assert(a[0] == 'l');
    assert(a.subrange(0, 1)[0] == 'l');
    assert(!starts_with(a, "."@));
    assert(!starts_with(a, "/"@));
    if rest.len() == 0 {
        assert(a =~= "localhost"@);
    } else {
        assert(a.subrange(0, 10) =~= "localhost:"@);
        assert(starts_with(a, "localhost:"@));
    }
}

/// A name with a dot in it looks like a host whenever it holds no white space
/// and does not start with `.` or `/`.
pub proof fn law_dotted_names_look_like_hosts(label: Seq<char>, rest: Seq<char>)
    requires
        label.len() > 0,
        label[0] != '.' && label[0] != '/',
        forall|i: int| 0 <= i < label.len() ==> !is_white_space(#[trigger] label[i]),
        forall|i: int| 0 <= i < rest.len() ==> !is_white_space(#[trigger] rest[i]),
    ensures
        looks_like_host_spec(label + "."@ + rest),
{
    reveal_strlit(".");
    reveal_strlit("/");
    let a = label + "."@ + rest;
    assert(a[label.len() as int] == '.');
    assert forall|i: int| 0 <= i < a.len() implies !is_white_space(#[trigger] a[i]) by {
        if i < label.len() {
            assert(a[i] == label[i]);
        } else if i > label.len() {
            assert(a[i] == rest[i - label.len() - 1]);
        }
    }
    assert(a.subrange(0, 1) != "."@) by {
        assert(a.subrange(0, 1)[0] == label[0]);
    }
    assert(a.subrange(0, 1) != "/"@) by {
        assert(a.subrange(0, 1)[0] == label[0]);
    }
}

/// Text with white space in it never looks like a host.
pub proof fn law_white_space_is_no_host(address: Seq<char>, i: int)
    requires
        0 <= i < address.len(),
        is_white_space(address[i]),
    ensures
        !looks_like_host_spec(address),
{
}

/// An address that, trimmed, looks like a host and holds no `://` is read, when
/// no local file has that path, as that host over `https://`.
pub proof fn law_host_addresses_get_https(address: Seq<char>, language: Language)
    requires
        looks_like_host_spec(trim(address)),
        !contains(trim(address), "://"@),
    ensures
        parse_address_spec(address, language, LocalFile::Missing) == match spec_url_parse("https://"@ + trim(address)) {
            Ok(url) => Ok::<Seq<char>, Seq<char>>(url),
            Err(message) => Err(language.pick("URL 无效："@, "Invalid URL: "@) + message),
        },
{
    let a = trim(address);
    if a.len() == 0 {
        reveal_strlit("localhost");
        reveal_strlit("localhost:");
        assert(a != "localhost"@);
    }
}

/// What the address bar decides before it looks at hosts: blank input is
/// refused whatever the file system says; input with `://` is read as a URL
/// whatever the file system says; other input that names an existing local
/// file opens that file.
pub proof fn law_address_bar_precedence(address: Seq<char>, language: Language, url: WebUrl)
    ensures
        trim(address).len() == 0 ==> parse_address_spec(address, language, LocalFile::Found(url)) == Err::<
            Seq<char>,
            Seq<char>,
        >(language.pick("地址不能为空"@, "Address cannot be empty"@)) && parse_address_spec(
            address,
            language,
            LocalFile::Missing,
        ) == parse_address_spec(address, language, LocalFile::Found(url)),
        contains(trim(address), "://"@) ==> parse_address_spec(address, language, LocalFile::Found(url))
            == parse_address_spec(address, language, LocalFile::Missing) && parse_address_spec(
            address,
            language,
            LocalFile::Unconvertible,
        ) == parse_address_spec(address, language, LocalFile::Missing),
        trim(address).len() > 0 && !contains(trim(address), "://"@) ==> parse_address_spec(
            address,
            language,
            LocalFile::Found(url),
        ) == Ok::<Seq<char>, Seq<char>>(url@),
{
}

/// The URL of a settings section shows that section again, and the two
/// sections have different URLs.
pub proof fn law_settings_sections_round_trip(section: SettingsSection)
    ensures
        settings_section_spec(
            match section {
                SettingsSection::Appearance => ARCHETYPE_SETTINGS_APPEARANCE@,
                SettingsSection::About => ARCHETYPE_SETTINGS_ABOUT@,
            },
        ) == Some(section),
        ARCHETYPE_SETTINGS_APPEARANCE@ != ARCHETYPE_SETTINGS_ABOUT@,
{
    reveal_strlit("archetype://settings/appearance");
    reveal_strlit("archetype://settings/about");
    assert(ARCHETYPE_SETTINGS_APPEARANCE@ == "archetype://settings/appearance"@);
    assert(ARCHETYPE_SETTINGS_ABOUT@ == "archetype://settings/about"@);
    assert(ARCHETYPE_SETTINGS_APPEARANCE@.len() != ARCHETYPE_SETTINGS_ABOUT@.len());
}

} // verus!
