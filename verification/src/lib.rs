//! Verified core of the Archetype runtime browser: text handling, localisation,
//! the document tree, forms, cookies policy, navigation session state, the
//! renderer protocol and the request router.

pub mod text;
pub mod random;
pub mod url;
pub mod types;
pub mod protocol;
pub mod session;
pub mod forms;
pub mod dom;
pub mod html;
pub mod page;
pub mod cookies;
pub mod profile_cookies;
pub mod net;
pub mod chromium;
pub mod style;
pub mod cascade;
pub mod paint;
pub mod css;
pub mod runtime;
pub mod broker;
pub mod page_load;
pub mod supervisor;
pub mod store;
pub mod shell;
pub mod i18n;
pub mod acceptance;
