//! Pagination: what a list request asks for, and the envelopes of its answers.
use vstd::prelude::*;

verus! {

/// Pagination mode for one list request.
#[derive(Clone, Copy, Debug, PartialEq, Eq, Structural)]
pub enum PaginationMode {
    /// Opaque keyset cursor pagination.
    Cursor,
    /// One-based page-number pagination.
    Page,
    /// Zero-based offset pagination.
    Offset,
}

/// Pagination limits and defaults for one API surface.
#[derive(Clone, Copy, Debug, PartialEq, Eq, Structural)]
pub struct PaginationConfig {
    pub default_size: u32,
    pub max_size: u32,
    pub default_mode: PaginationMode,
}

impl PaginationConfig {
    pub fn new(default_size: u32, max_size: u32) -> (config: Self)
        ensures
            config == (PaginationConfig {
                default_size,
                max_size,
                default_mode: PaginationMode::Cursor,
            }),
    {
        PaginationConfig { default_size, max_size, default_mode: PaginationMode::Cursor }
    }

    pub fn with_default_mode(self, default_mode: PaginationMode) -> (config: Self)
        ensures
            config == (PaginationConfig { default_mode, ..self }),
    {
        PaginationConfig {
            default_size: self.default_size,
            max_size: self.max_size,
            default_mode,
        }
    }
}

impl Default for PaginationConfig {
    fn default() -> (config: Self)
        ensures
            config == (PaginationConfig {
                default_size: 20,
                max_size: 200,
                default_mode: PaginationMode::Cursor,
            }),
    {
        PaginationConfig { default_size: 20, max_size: 200, default_mode: PaginationMode::Cursor }
    }
}

/// Backwards-compatible name for cursor-first APIs.
pub type CursorPageConfig = PaginationConfig;

/// An optional text by its view.
pub open spec fn optional_text(text: Option<String>) -> Option<Seq<char>> {
    match text {
        Some(text) => Some(text@),
        None => None,
    }
}

/// Client request for an opaque cursor page.
#[derive(Clone, Debug, PartialEq, Eq)]
pub struct CursorPageRequest {
    pub size: u32,
    pub cursor: Option<String>,
}

impl CursorPageRequest {
    pub fn first(size: u32) -> (request: Self)
        ensures
            request.size == size,
            request.cursor is None,
    {
        CursorPageRequest { size, cursor: None }
    }

    pub fn after(size: u32, cursor: &str) -> (request: Self)
        ensures
            request.size == size,
            optional_text(request.cursor) == Some(cursor@),
    {
        CursorPageRequest { size, cursor: Some(cursor.to_owned()) }
    }
}

/// Client request for page-number pagination.
#[derive(Clone, Debug, PartialEq, Eq, Structural)]
pub struct PageNumberRequest {
    pub size: u32,
    /// One-based page number.
    pub number: u32,
}

impl PageNumberRequest {
    pub fn new(size: u32, number: u32) -> (request: Self)
        ensures
            request == (PageNumberRequest { size, number }),
    {
        PageNumberRequest { size, number }
    }
}

/// Client request for offset pagination.
#[derive(Clone, Debug, PartialEq, Eq, Structural)]
pub struct OffsetPageRequest {
    pub size: u32,
    /// Zero-based item offset.
    pub offset: u64,
}

impl OffsetPageRequest {
    pub fn new(size: u32, offset: u64) -> (request: Self)
        ensures
            request == (OffsetPageRequest { size, offset }),
    {
        OffsetPageRequest { size, offset }
    }
}

/// Pagination request accepted by list APIs.
#[derive(Clone, Debug, PartialEq, Eq)]
pub enum PaginationRequest {
    Cursor(CursorPageRequest),
    Page(PageNumberRequest),
    Offset(OffsetPageRequest),
}

/// A [`PaginationRequest`] with its cursor as a character sequence.
pub enum PageView {
    Cursor { size: u32, cursor: Option<Seq<char>> },
    Page { size: u32, number: u32 },
    Offset { size: u32, offset: u64 },
}

impl View for PaginationRequest {
    type V = PageView;

    open spec fn view(&self) -> PageView {
        match *self {
            PaginationRequest::Cursor(request) => PageView::Cursor {
                size: request.size,
                cursor: optional_text(request.cursor),
            },
            PaginationRequest::Page(request) => PageView::Page {
                size: request.size,
                number: request.number,
            },
            PaginationRequest::Offset(request) => PageView::Offset {
                size: request.size,
                offset: request.offset,
            },
        }
    }
}

impl PageView {
    pub open spec fn size(self) -> u32 {
        match self {
            PageView::Cursor { size, cursor } => size,
            PageView::Page { size, number } => size,
            PageView::Offset { size, offset } => size,
        }
    }
}

impl PaginationRequest {
    pub fn cursor(size: u32, cursor: Option<String>) -> (request: Self)
        ensures
            request@ == (PageView::Cursor { size, cursor: optional_text(cursor) }),
    {
        PaginationRequest::Cursor(CursorPageRequest { size, cursor })
    }

    pub fn page(size: u32, number: u32) -> (request: Self)
        ensures
            request@ == (PageView::Page { size, number }),
    {
        PaginationRequest::Page(PageNumberRequest { size, number })
    }

    pub fn offset(size: u32, offset: u64) -> (request: Self)
        ensures
            request@ == (PageView::Offset { size, offset }),
    {
        PaginationRequest::Offset(OffsetPageRequest { size, offset })
    }

    pub fn size(&self) -> (size: u32)
        ensures
            size == self@.size(),
    {
        match self {
            PaginationRequest::Cursor(request) => request.size,
            PaginationRequest::Page(request) => request.size,
            PaginationRequest::Offset(request) => request.size,
        }
    }

    pub fn cursor_value(&self) -> (cursor: Option<&str>)
        ensures
            match cursor {
                Some(text) => self@ matches PageView::Cursor { size, cursor: Some(c) } && text@ == c,
                None => !(self@ matches PageView::Cursor { size, cursor: Some(c) }),
            },
    {
        match self {
            PaginationRequest::Cursor(request) => match &request.cursor {
                Some(cursor) => Some(cursor.as_str()),
                None => None,
            },
            PaginationRequest::Page(_) => None,
            PaginationRequest::Offset(_) => None,
        }
    }
}

/// Generic cursor page envelope for APIs that choose a neutral `items` shape.
///
/// Product APIs may still expose named item fields such as `issues` or `runs`;
/// in that case this type is the reference shape for the page metadata.
#[derive(Clone, Debug, PartialEq, Eq)]
pub struct CursorPage<T> {
    pub items: Vec<T>,
    pub cursor: Option<String>,
}

impl<T> CursorPage<T> {
    pub fn new(items: Vec<T>, cursor: Option<String>) -> (page: Self)
        ensures
            page.items == items,
            page.cursor == cursor,
    {
        CursorPage { items, cursor }
    }
}

/// Generic page-number page envelope for APIs that need traditional pagination.
#[derive(Clone, Debug, PartialEq, Eq)]
pub struct NumberedPage<T> {
    pub items: Vec<T>,
    pub page: u32,
    pub size: u32,
    pub total_items: Option<u64>,
}

impl<T> NumberedPage<T> {
    pub fn new(items: Vec<T>, page: u32, size: u32, total_items: Option<u64>) -> (numbered: Self)
        ensures
            numbered.items == items,
            numbered.page == page,
            numbered.size == size,
            numbered.total_items == total_items,
    {
        NumberedPage { items, page, size, total_items }
    }
}

/// One group of a grouped list response: its key, how many items it has in all, and
/// one page of them with the cursor for the next.
#[derive(Clone, Debug, PartialEq, Eq)]
pub struct GroupBucket<G, T> {
    pub group: G,
    pub total: u64,
    pub cursor: Option<String>,
    pub items: Vec<T>,
}

impl<G, T> GroupBucket<G, T> {
    pub fn new(group: G, total: u64, cursor: Option<String>, items: Vec<T>) -> (bucket: Self)
        ensures
            bucket.group == group,
            bucket.total == total,
            bucket.cursor == cursor,
            bucket.items == items,
    {
        GroupBucket { group, total, cursor, items }
    }
}

/// Envelope of a grouped list response, one bucket per group.
#[derive(Clone, Debug, PartialEq, Eq)]
pub struct GroupedPage<G, T> {
    pub groups: Vec<GroupBucket<G, T>>,
}

impl<G, T> GroupedPage<G, T> {
    pub fn new(groups: Vec<GroupBucket<G, T>>) -> (page: Self)
        ensures
            page.groups == groups,
    {
        GroupedPage { groups }
    }
}

} // verus!
