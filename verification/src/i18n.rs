//! Localised copy of the browser chrome in Simplified Chinese and English.

use vstd::prelude::*;

use crate::text::{ascii_lower, decimal, starts_with};
use crate::url::UrlParseError;

verus! {

/// The language of the browser chrome.
#[derive(Clone, Copy, Debug, PartialEq, Eq, Structural)]
pub enum Language {
    Chinese,
    English,
}

/// Calls `sys_locale::get_locale`: the locale reported by the operating system, if
/// any. It depends on the machine, so nothing is stated of it.
#[verifier::external_body]
fn system_locale() -> Option<String> {
    sys_locale::get_locale()
}

/// The language selected for a locale tag: Chinese for tags that start with `zh`
/// in any letter case, English otherwise.
pub open spec fn language_for_locale(locale: Option<Seq<char>>) -> Language {
    match locale {
        Some(tag) => if starts_with(ascii_lower(tag), seq!['z', 'h']) {
            Language::Chinese
        } else {
            Language::English
        },
        None => Language::English,
    }
}

impl Language {
    /// The copy for this language among a Chinese and an English text.
    pub open spec fn pick<T>(self, chinese: T, english: T) -> T {
        match self {
            Language::Chinese => chinese,
            Language::English => english,
        }
    }

    /// The language of the operating system's locale.
    pub fn system() -> Self {
        let locale = system_locale();
        match locale {
            Some(tag) => Self::from_locale(Some(tag.as_str())),
            None => Self::from_locale(None),
        }
    }

    pub fn from_locale(locale: Option<&str>) -> (r: Self)
        ensures
            r == language_for_locale(match locale {
                Some(tag) => Some(tag@),
                None => None,
            }),
    {
        match locale {
            Some(tag) => {
                let chars = crate::text::chars_of(tag);
                if chars.len() >= 2 && crate::text::ascii_lower_of(chars[0]) == 'z'
                    && crate::text::ascii_lower_of(chars[1]) == 'h' {
                    proof {
                        assert(ascii_lower(tag@).subrange(0, 2) =~= seq!['z', 'h']);
                    }
                    Language::Chinese
                } else {
                    proof {
                        if starts_with(ascii_lower(tag@), seq!['z', 'h']) {
                            assert(ascii_lower(tag@).subrange(0, 2)[0] == 'z');
                            assert(ascii_lower(tag@).subrange(0, 2)[1] == 'h');
                        }
                    }
                    Language::English
                }
            },
            None => Language::English,
        }
    }

    fn select(self, chinese: &'static str, english: &'static str) -> (r: &'static str)
        ensures
            r == self.pick(chinese, english),
    {
        match self {
            Language::Chinese => chinese,
            Language::English => english,
        }
    }

    /// Joins a fixed prefix of this language and a dynamic text.
    fn with_prefix(self, chinese: &'static str, english: &'static str, rest: &str) -> (r: String)
        ensures
            r@ == self.pick(chinese@, english@) + rest@,
    {
        let mut text = String::from_str(self.select(chinese, english));
        text.append(rest);
        text
    }

    pub fn new_space_name(self, number: usize) -> (r: String)
        ensures
            r@ == self.pick("空间 "@, "Space "@) + decimal(number as nat),
    {
        let digits = crate::text::decimal_string(number);
        self.with_prefix("空间 ", "Space ", digits.as_str())
    }

    pub fn new_folder_name(self, number: usize) -> (r: String)
        ensures
            r@ == self.pick("文件夹 "@, "Folder "@) + decimal(number as nat),
    {
        let digits = crate::text::decimal_string(number);
        self.with_prefix("文件夹 ", "Folder ", digits.as_str())
    }

    /// The message shown for an address that the URL parser refused.
    pub fn invalid_url(self, error: &UrlParseError) -> (r: String)
        ensures
            r@ == self.pick("URL 无效："@, "Invalid URL: "@) + error@,
    {
        self.with_prefix("URL 无效：", "Invalid URL: ", error.message())
    }

    pub fn invalid_address(self, address: &str) -> (r: String)
        ensures
            r@ == self.pick("地址无效或路径不存在："@, "Invalid address or missing path: "@)
                + address@,
    {
        self.with_prefix("地址无效或路径不存在：", "Invalid address or missing path: ", address)
    }

    pub fn invalid_input(self) -> (r: &'static str)
        ensures
            r@ == self.pick("输入无效"@, "Invalid input"@),
    {
        self.select("输入无效", "Invalid input")
    }

    pub fn application_error(self) -> (r: &'static str)
        ensures
            r@ == self.pick("应用程序错误"@, "Application error"@),
    {
        self.select("应用程序错误", "Application error")
    }

    pub fn unsupported_address(self) -> (r: &'static str)
        ensures
            r@ == self.pick("不支持的地址"@, "Unsupported address"@),
    {
        self.select("不支持的地址", "Unsupported address")
    }

    pub fn resource_too_large(self) -> (r: &'static str)
        ensures
            r@ == self.pick("资源过大"@, "Resource too large"@),
    {
        self.select("资源过大", "Resource too large")
    }

    pub fn file_unavailable(self) -> (r: &'static str)
        ensures
            r@ == self.pick("文件不可用"@, "File unavailable"@),
    {
        self.select("文件不可用", "File unavailable")
    }

    pub fn request_timed_out(self) -> (r: &'static str)
        ensures
            r@ == self.pick("请求超时"@, "Request timed out"@),
    {
        self.select("请求超时", "Request timed out")
    }

    pub fn certificate_validation_failed(self) -> (r: &'static str)
        ensures
            r@ == self.pick("证书验证失败"@, "Certificate validation failed"@),
    {
        self.select("证书验证失败", "Certificate validation failed")
    }

    pub fn connection_failed(self) -> (r: &'static str)
        ensures
            r@ == self.pick("连接失败"@, "Connection failed"@),
    {
        self.select("连接失败", "Connection failed")
    }

    pub fn http_request_failed(self) -> (r: &'static str)
        ensures
            r@ == self.pick("HTTP 请求失败"@, "HTTP request failed"@),
    {
        self.select("HTTP 请求失败", "HTTP request failed")
    }

    pub fn secure_network_request_failed(self) -> (r: &'static str)
        ensures
            r@ == self.pick("安全网络请求失败"@, "Secure network request failed"@),
    {
        self.select("安全网络请求失败", "Secure network request failed")
    }

    pub fn rendering_failed(self) -> (r: &'static str)
        ensures
            r@ == self.pick("渲染失败"@, "Rendering failed"@),
    {
        self.select("渲染失败", "Rendering failed")
    }

    pub fn document_parsing_failed(self) -> (r: &'static str)
        ensures
            r@ == self.pick("文档解析失败"@, "Document parsing failed"@),
    {
        self.select("文档解析失败", "Document parsing failed")
    }

    pub fn default_space_name(self) -> (r: &'static str)
        ensures
            r@ == self.pick("开始"@, "Start"@),
    {
        self.select("开始", "Start")
    }

    pub fn address_placeholder(self) -> (r: &'static str)
        ensures
            r@ == self.pick("搜索或输入地址"@, "Search or enter an address"@),
    {
        self.select("搜索或输入地址", "Search or enter an address")
    }

    pub fn space_name_placeholder(self) -> (r: &'static str)
        ensures
            r@ == self.pick("空间名称"@, "Space name"@),
    {
        self.select("空间名称", "Space name")
    }

    pub fn space_name_empty(self) -> (r: &'static str)
        ensures
            r@ == self.pick("空间名称不能为空"@, "Space name cannot be empty"@),
    {
        self.select("空间名称不能为空", "Space name cannot be empty")
    }

    pub fn selected_space_missing(self) -> (r: &'static str)
        ensures
            r@ == self.pick("所选空间已不存在"@, "Selected Space no longer exists"@),
    {
        self.select("所选空间已不存在", "Selected Space no longer exists")
    }

    pub fn selected_page_missing(self) -> (r: &'static str)
        ensures
            r@ == self.pick("所选标签页已不存在"@, "Selected tab no longer exists"@),
    {
        self.select("所选标签页已不存在", "Selected tab no longer exists")
    }

    pub fn new_tab(self) -> (r: &'static str)
        ensures
            r@ == self.pick("新建标签页"@, "New tab"@),
    {
        self.select("新建标签页", "New tab")
    }

    pub fn close_tab(self) -> (r: &'static str)
        ensures
            r@ == self.pick("关闭标签页"@, "Close tab"@),
    {
        self.select("关闭标签页", "Close tab")
    }

    pub fn switch_space(self) -> (r: &'static str)
        ensures
            r@ == self.pick("切换空间"@, "Switch Space"@),
    {
        self.select("切换空间", "Switch Space")
    }

    pub fn new_space(self) -> (r: &'static str)
        ensures
            r@ == self.pick("新建空间"@, "New Space"@),
    {
        self.select("新建空间", "New Space")
    }

    pub fn rename_space(self) -> (r: &'static str)
        ensures
            r@ == self.pick("重命名空间"@, "Rename Space"@),
    {
        self.select("重命名空间", "Rename Space")
    }

    pub fn delete_space(self) -> (r: &'static str)
        ensures
            r@ == self.pick("删除空间"@, "Delete Space"@),
    {
        self.select("删除空间", "Delete Space")
    }

    pub fn save(self) -> (r: &'static str)
        ensures
            r@ == self.pick("保存"@, "Save"@),
    {
        self.select("保存", "Save")
    }

    pub fn cancel(self) -> (r: &'static str)
        ensures
            r@ == self.pick("取消"@, "Cancel"@),
    {
        self.select("取消", "Cancel")
    }

    pub fn go_back(self) -> (r: &'static str)
        ensures
            r@ == self.pick("后退"@, "Back"@),
    {
        self.select("后退", "Back")
    }

    pub fn go_forward(self) -> (r: &'static str)
        ensures
            r@ == self.pick("前进"@, "Forward"@),
    {
        self.select("前进", "Forward")
    }

    pub fn reload(self) -> (r: &'static str)
        ensures
            r@ == self.pick("重新加载"@, "Reload"@),
    {
        self.select("重新加载", "Reload")
    }

    pub fn stop_loading(self) -> (r: &'static str)
        ensures
            r@ == self.pick("停止加载"@, "Stop loading"@),
    {
        self.select("停止加载", "Stop loading")
    }

    pub fn bookmark_current_page(self) -> (r: &'static str)
        ensures
            r@ == self.pick("收藏当前页面"@, "Bookmark this page"@),
    {
        self.select("收藏当前页面", "Bookmark this page")
    }

    pub fn settings(self) -> (r: &'static str)
        ensures
            r@ == self.pick("设置"@, "Settings"@),
    {
        self.select("设置", "Settings")
    }

    pub fn main_menu(self) -> (r: &'static str)
        ensures
            r@ == self.pick("主菜单"@, "Main menu"@),
    {
        self.select("主菜单", "Main menu")
    }

    pub fn history(self) -> (r: &'static str)
        ensures
            r@ == self.pick("历史记录"@, "History"@),
    {
        self.select("历史记录", "History")
    }

    pub fn search_history(self) -> (r: &'static str)
        ensures
            r@ == self.pick("搜索历史记录"@, "Search history"@),
    {
        self.select("搜索历史记录", "Search history")
    }

    pub fn clear_history(self) -> (r: &'static str)
        ensures
            r@ == self.pick("清空历史记录"@, "Clear history"@),
    {
        self.select("清空历史记录", "Clear history")
    }

    pub fn delete_history_entry(self) -> (r: &'static str)
        ensures
            r@ == self.pick("删除此记录"@, "Delete this entry"@),
    {
        self.select("删除此记录", "Delete this entry")
    }

    pub fn no_history(self) -> (r: &'static str)
        ensures
            r@ == self.pick("还没有浏览记录"@, "No browsing history yet"@),
    {
        self.select("还没有浏览记录", "No browsing history yet")
    }

    pub fn no_history_matches(self) -> (r: &'static str)
        ensures
            r@ == self.pick("没有匹配的历史记录"@, "No matching history entries"@),
    {
        self.select("没有匹配的历史记录", "No matching history entries")
    }

    pub fn about_archetype(self) -> (r: &'static str)
        ensures
            r@ == self.pick("关于 Archetype"@, "About Archetype"@),
    {
        self.select("关于 Archetype", "About Archetype")
    }

    pub fn version(self) -> (r: &'static str)
        ensures
            r@ == self.pick("版本"@, "Version"@),
    {
        self.select("版本", "Version")
    }

    pub fn appearance(self) -> (r: &'static str)
        ensures
            r@ == self.pick("外观"@, "Appearance"@),
    {
        self.select("外观", "Appearance")
    }

    pub fn system_appearance(self) -> (r: &'static str)
        ensures
            r@ == self.pick("跟随系统"@, "Use system setting"@),
    {
        self.select("跟随系统", "Use system setting")
    }

    pub fn light_appearance(self) -> (r: &'static str)
        ensures
            r@ == self.pick("浅色"@, "Light"@),
    {
        self.select("浅色", "Light")
    }

    pub fn dark_appearance(self) -> (r: &'static str)
        ensures
            r@ == self.pick("深色"@, "Dark"@),
    {
        self.select("深色", "Dark")
    }

    pub fn remove_bookmark(self) -> (r: &'static str)
        ensures
            r@ == self.pick("删除书签或文件夹"@, "Remove bookmark or folder"@),
    {
        self.select("删除书签或文件夹", "Remove bookmark or folder")
    }

    pub fn rename_bookmark(self) -> (r: &'static str)
        ensures
            r@ == self.pick("重命名书签或文件夹"@, "Rename bookmark or folder"@),
    {
        self.select("重命名书签或文件夹", "Rename bookmark or folder")
    }

    pub fn bookmark_name_empty(self) -> (r: &'static str)
        ensures
            r@ == self.pick("书签或文件夹名称不能为空"@, "Bookmark or folder name cannot be empty"@),
    {
        self.select("书签或文件夹名称不能为空", "Bookmark or folder name cannot be empty")
    }

    pub fn bookmarks(self) -> (r: &'static str)
        ensures
            r@ == self.pick("书签"@, "Bookmarks"@),
    {
        self.select("书签", "Bookmarks")
    }

    pub fn bookmark_bar(self) -> (r: &'static str)
        ensures
            r@ == self.pick("书签栏"@, "Bookmarks bar"@),
    {
        self.select("书签栏", "Bookmarks bar")
    }

    pub fn bookmark_folder(self) -> (r: &'static str)
        ensures
            r@ == self.pick("书签文件夹"@, "Bookmark folder"@),
    {
        self.select("书签文件夹", "Bookmark folder")
    }

    pub fn new_bookmark_folder(self) -> (r: &'static str)
        ensures
            r@ == self.pick("新建书签文件夹"@, "New bookmark folder"@),
    {
        self.select("新建书签文件夹", "New bookmark folder")
    }

    pub fn folder_name_placeholder(self) -> (r: &'static str)
        ensures
            r@ == self.pick("文件夹名称"@, "Folder name"@),
    {
        self.select("文件夹名称", "Folder name")
    }

    pub fn folder_name_empty(self) -> (r: &'static str)
        ensures
            r@ == self.pick("文件夹名称不能为空"@, "Folder name cannot be empty"@),
    {
        self.select("文件夹名称不能为空", "Folder name cannot be empty")
    }

    pub fn empty_folder(self) -> (r: &'static str)
        ensures
            r@ == self.pick("空文件夹"@, "Empty folder"@),
    {
        self.select("空文件夹", "Empty folder")
    }

    pub fn save_to_this_folder(self) -> (r: &'static str)
        ensures
            r@ == self.pick("保存到此文件夹"@, "Save to this folder"@),
    {
        self.select("保存到此文件夹", "Save to this folder")
    }

    pub fn open_page_to_begin(self) -> (r: &'static str)
        ensures
            r@ == self.pick("打开一个页面以开始浏览"@, "Open a page to begin"@),
    {
        self.select("打开一个页面以开始浏览", "Open a page to begin")
    }

    pub fn diagnostics(self) -> (r: &'static str)
        ensures
            r@ == self.pick("诊断信息"@, "Diagnostics"@),
    {
        self.select("诊断信息", "Diagnostics")
    }

    pub fn address_empty(self) -> (r: &'static str)
        ensures
            r@ == self.pick("地址不能为空"@, "Address cannot be empty"@),
    {
        self.select("地址不能为空", "Address cannot be empty")
    }

    pub fn invalid_file_path(self) -> (r: &'static str)
        ensures
            r@ == self.pick("路径无法表示为文件 URL"@, "Path cannot be represented as a file URL"@),
    {
        self.select("路径无法表示为文件 URL", "Path cannot be represented as a file URL")
    }
}

/// Each language picks its own copy, and a locale tag that starts with `zh`,
/// in any letter case, selects Chinese whatever follows; a tag that starts
/// otherwise, or no locale, selects English.
pub proof fn law_languages_pick_their_copy(chinese: Seq<char>, english: Seq<char>, rest: Seq<char>)
    ensures
        Language::Chinese.pick(chinese, english) == chinese,
        Language::English.pick(chinese, english) == english,
        language_for_locale(Some(seq!['z', 'h'] + rest)) == Language::Chinese,
        language_for_locale(Some(seq!['Z', 'H'] + rest)) == Language::Chinese,
        language_for_locale(Some(seq!['z', 'H'] + rest)) == Language::Chinese,
        language_for_locale(Some(seq!['e', 'n'] + rest)) == Language::English,
        language_for_locale(None) == Language::English,
{
    let lower = seq!['z', 'h'] + ascii_lower(rest);
    assert(ascii_lower(seq!['z', 'h'] + rest) =~= lower);
    assert(ascii_lower(seq!['Z', 'H'] + rest) =~= lower);
    assert(ascii_lower(seq!['z', 'H'] + rest) =~= lower);
    assert(lower.subrange(0, 2) =~= seq!['z', 'h']);
    let english_tag = ascii_lower(seq!['e', 'n'] + rest);
    assert(english_tag[0] == 'e');
    assert(english_tag.subrange(0, 2)[0] == 'e');
}

} // verus!
