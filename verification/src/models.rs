//! Data carried through the pipeline: raw catalog records as the remote
//! envelope delivers them, deduplicated catalog entries, and per-item
//! download outcomes, each with a mathematical view.

use vstd::prelude::*;

verus! {

/// One record of a catalog page as the remote envelope delivers it:
/// every field may be absent, and downstream logic supplies the defaults.
#[derive(Debug, Clone)]
pub struct RawItem {
    pub slug: Option<String>,
    pub name: Option<String>,
    pub active_installs: Option<i64>,
    pub last_updated: Option<String>,
}

/// Mathematical view of a [`RawItem`].
pub ghost struct RawItemView {
    pub slug: Option<Seq<char>>,
    pub name: Option<Seq<char>>,
    pub active_installs: Option<i64>,
    pub last_updated: Option<Seq<char>>,
}

impl View for RawItem {
    type V = RawItemView;

    open spec fn view(&self) -> RawItemView {
        RawItemView {
            slug: match self.slug {
                Some(s) => Some(s@),
                None => None,
            },
            name: match self.name {
                Some(s) => Some(s@),
                None => None,
            },
            active_installs: self.active_installs,
            last_updated: match self.last_updated {
                Some(s) => Some(s@),
                None => None,
            },
        }
    }
}

/// What one page fetch handed back: its records, or nothing because the
/// transport failed. A failed page never aborts the aggregate; it simply
/// contributes no items.
pub enum PageFetch {
    Fetched { page: i32, items: Vec<RawItem> },
    Failed { page: i32 },
}

/// A deduplicated catalog entry.
#[derive(Debug, Clone)]
pub struct Plugin {
    pub slug: String,
    pub name: String,
    pub active_installs: i64,
    pub last_updated: Option<String>,
    pub page: i32,
}

/// Mathematical view of a [`Plugin`].
pub ghost struct PluginView {
    pub slug: Seq<char>,
    pub name: Seq<char>,
    pub active_installs: i64,
    pub last_updated: Option<Seq<char>>,
    pub page: i32,
}

impl View for Plugin {
    type V = PluginView;

    open spec fn view(&self) -> PluginView {
        PluginView {
            slug: self.slug@,
            name: self.name@,
            active_installs: self.active_installs,
            last_updated: match self.last_updated {
                Some(s) => Some(s@),
                None => None,
            },
            page: self.page,
        }
    }
}

/// The recorded result of attempting to download one item.
#[derive(Debug, Clone)]
pub struct DownloadResult {
    pub slug: String,
    pub success: bool,
    pub message: String,
    pub version: Option<String>,
}

/// Mathematical view of a [`DownloadResult`].
pub ghost struct DownloadResultView {
    pub slug: Seq<char>,
    pub success: bool,
    pub message: Seq<char>,
    pub version: Option<Seq<char>>,
}

impl View for DownloadResult {
    type V = DownloadResultView;

    open spec fn view(&self) -> DownloadResultView {
        DownloadResultView {
            slug: self.slug@,
            success: self.success,
            message: self.message@,
            version: match self.version {
                Some(s) => Some(s@),
                None => None,
            },
        }
    }
}

/// View of an optional string, shared by several contracts.
pub open spec fn opt_str_view(s: Option<String>) -> Option<Seq<char>> {
    match s {
        Some(s) => Some(s@),
        None => None,
    }
}

} // verus!
