//! The records the reader stores and hands out, with their mathematical views.
//!
//! Timestamps are seconds since the Unix epoch (UTC) held as `i64`.
use vstd::prelude::*;

verus! {

/// What a stored item is, as a value.
pub struct ItemView {
    pub id: i32,
    pub guid: Seq<char>,
    pub title: Seq<char>,
    pub link: Seq<char>,
    pub description: Seq<char>,
    pub published_at: i64,
    pub feed_channel_id: i32,
    pub content: Option<Seq<char>>,
}

pub open spec fn opt_view(o: Option<String>) -> Option<Seq<char>> {
    match o {
        Some(s) => Some(s@),
        None => None,
    }
}

/// Copies an optional string; the copy has the same contents.
pub fn clone_opt(o: &Option<String>) -> (r: Option<String>)
    ensures
        opt_view(r) == opt_view(*o),
{
    match o {
        Some(s) => Some(s.clone()),
        None => None,
    }
}

/// One entry of a channel.
#[derive(Debug)]
pub struct FeedItem {
    pub id: i32,
    pub guid: String,
    pub title: String,
    pub link: String,
    pub description: String,
    pub published_at: i64,
    pub feed_channel_id: i32,
    pub content: Option<String>,
}

impl View for FeedItem {
    type V = ItemView;

    open spec fn view(&self) -> ItemView {
        ItemView {
            id: self.id,
            guid: self.guid@,
            title: self.title@,
            link: self.link@,
            description: self.description@,
            published_at: self.published_at,
            feed_channel_id: self.feed_channel_id,
            content: opt_view(self.content),
        }
    }
}

impl FeedItem {
    /// A copy of this item.
    pub fn copy(&self) -> (r: FeedItem)
        ensures
            r@ == self@,
    {
        FeedItem {
            id: self.id,
            guid: self.guid.clone(),
            title: self.title.clone(),
            link: self.link.clone(),
            description: self.description.clone(),
            published_at: self.published_at,
            feed_channel_id: self.feed_channel_id,
            content: clone_opt(&self.content),
        }
    }
}

/// The seen flag of one user on one item.
#[derive(Clone, Copy, Debug, PartialEq, Eq, Structural)]
pub struct SubscribedFeedItem {
    pub id: i32,
    pub feed_item_id: i32,
    pub user_id: i32,
    pub seen: bool,
}

/// What a composite item is, as a value.
pub struct CompositeView {
    pub item_id: i32,
    pub title: Seq<char>,
    pub link: Option<Seq<char>>,
    pub description: Seq<char>,
    pub published_at: i64,
    pub content: Option<Seq<char>>,
    pub seen: bool,
}

/// An item joined with one user's seen flag.
#[derive(Debug)]
pub struct CompositeFeedItem {
    pub item_id: i32,
    pub title: String,
    pub link: Option<String>,
    pub description: String,
    pub published_at: i64,
    pub content: Option<String>,
    pub seen: bool,
}

impl View for CompositeFeedItem {
    type V = CompositeView;

    open spec fn view(&self) -> CompositeView {
        CompositeView {
            item_id: self.item_id,
            title: self.title@,
            link: opt_view(self.link),
            description: self.description@,
            published_at: self.published_at,
            content: opt_view(self.content),
            seen: self.seen,
        }
    }
}

impl CompositeFeedItem {
    /// Builds a composite item from (id, title, description, published, seen),
    /// with no link and no content.
    pub fn partial(item: &(i32, String, String, i64, bool)) -> (r: Self)
        ensures
            r@ == (CompositeView {
                item_id: item.0,
                title: item.1@,
                link: None,
                description: item.2@,
                published_at: item.3,
                content: None,
                seen: item.4,
            }),
    {
        CompositeFeedItem {
            item_id: item.0,
            title: item.1.clone(),
            link: None,
            description: item.2.clone(),
            published_at: item.3,
            content: None,
            seen: item.4,
        }
    }
}

/// What a stored channel is, as a value.
pub struct ChannelView {
    pub id: i32,
    pub title: Seq<char>,
    pub site_link: Seq<char>,
    pub feed_link: Seq<char>,
    pub description: Seq<char>,
    pub updated_at: i64,
}

/// A subscribed feed source.
#[derive(Debug)]
pub struct FeedChannel {
    pub id: i32,
    pub title: String,
    pub site_link: String,
    pub feed_link: String,
    pub description: String,
    pub updated_at: i64,
}

impl View for FeedChannel {
    type V = ChannelView;

    open spec fn view(&self) -> ChannelView {
        ChannelView {
            id: self.id,
            title: self.title@,
            site_link: self.site_link@,
            feed_link: self.feed_link@,
            description: self.description@,
            updated_at: self.updated_at,
        }
    }
}

impl FeedChannel {
    /// A copy of this channel.
    pub fn copy(&self) -> (r: FeedChannel)
        ensures
            r@ == self@,
    {
        FeedChannel {
            id: self.id,
            title: self.title.clone(),
            site_link: self.site_link.clone(),
            feed_link: self.feed_link.clone(),
            description: self.description.clone(),
            updated_at: self.updated_at,
        }
    }
}

/// A user's subscription to a channel.
#[derive(Clone, Copy, Debug, PartialEq, Eq, Structural)]
pub struct Subscription {
    pub id: i32,
    pub user_id: i32,
    pub feed_channel_id: i32,
}

/// What a user is, as a value.
pub struct UserView {
    pub id: i32,
    pub username: Seq<char>,
    pub password_hash: Seq<u8>,
}

/// A registered user; `password_hash` holds the base64 text of the digest.
#[derive(Debug)]
pub struct User {
    pub id: i32,
    pub username: String,
    pub password_hash: Vec<u8>,
}

impl View for User {
    type V = UserView;

    open spec fn view(&self) -> UserView {
        UserView { id: self.id, username: self.username@, password_hash: self.password_hash@ }
    }
}

impl User {
    /// A copy of this user.
    pub fn copy(&self) -> (r: User)
        ensures
            r@ == self@,
    {
        let h = self.password_hash.clone();
        assert(h@ =~= self.password_hash@);
        User { id: self.id, username: self.username.clone(), password_hash: h }
    }
}

/// The payload of a signed token: who, and when it was issued (seconds since the epoch).
#[derive(Debug)]
pub struct Claims {
    pub name: String,
    pub iat: u64,
}

/// What a parsed feed entry is, as a value.
pub struct ParsedItemView {
    pub guid: Seq<char>,
    pub title: Seq<char>,
    pub link: Seq<char>,
    pub description: Seq<char>,
    pub content: Option<Seq<char>>,
    pub published_at: i64,
}

/// One entry of a fetched feed document, normalized.
#[derive(Debug)]
pub struct ParsedItem {
    pub guid: String,
    pub title: String,
    pub link: String,
    pub description: String,
    pub content: Option<String>,
    pub published_at: i64,
}

impl View for ParsedItem {
    type V = ParsedItemView;

    open spec fn view(&self) -> ParsedItemView {
        ParsedItemView {
            guid: self.guid@,
            title: self.title@,
            link: self.link@,
            description: self.description@,
            content: opt_view(self.content),
            published_at: self.published_at,
        }
    }
}

/// What a parsed feed is, as a value.
pub struct ParsedFeedView {
    pub title: Seq<char>,
    pub site_link: Seq<char>,
    pub feed_link: Seq<char>,
    pub description: Seq<char>,
    pub items: Seq<ParsedItemView>,
}

/// A fetched feed document, normalized: channel metadata and its entries in document order.
#[derive(Debug)]
pub struct ParsedFeed {
    pub title: String,
    pub site_link: String,
    pub feed_link: String,
    pub description: String,
    pub items: Vec<ParsedItem>,
}

impl View for ParsedFeed {
    type V = ParsedFeedView;

    open spec fn view(&self) -> ParsedFeedView {
        ParsedFeedView {
            title: self.title@,
            site_link: self.site_link@,
            feed_link: self.feed_link@,
            description: self.description@,
            items: self.items@.map_values(|i: ParsedItem| i@),
        }
    }
}

} // verus!
