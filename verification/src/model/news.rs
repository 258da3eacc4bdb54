//! News on an instrument.

use crate::json::{self, Json, JsonView};
use crate::laws::listings;
use crate::sc::{self, array_at, words_else_empty};
use crate::seqs;
use vstd::prelude::*;
use vstd::string::*;

verus! {

#[derive(Debug, Clone)]
pub struct NewsItem {
    pub headline: String,
    pub source: String,
    pub published: String,
}

impl Default for NewsItem {
    fn default() -> (r: NewsItem)
        ensures
            r.headline@.len() == 0,
            r.source@.len() == 0,
            r.published@.len() == 0,
    {
        NewsItem {
            headline: String::new(),
            source: String::new(),
            published: String::new(),
        }
    }
}

/// News and an editorial summary. Many instruments have neither, so that nothing
/// at all is no error.
#[derive(Debug, Clone)]
pub struct SecurityNews {
    pub isin: String,
    pub locale: String,
    pub short: String,
    pub long: String,
    pub last_updated: String,
    pub sources: Vec<NewsItem>,
}

impl Default for SecurityNews {
    fn default() -> (r: SecurityNews)
        ensures
            r.isin@.len() == 0,
            r.locale@.len() == 0,
            r.short@.len() == 0,
            r.long@.len() == 0,
            r.last_updated@.len() == 0,
            r.sources@.len() == 0,
    {
        SecurityNews {
            isin: String::new(),
            locale: String::new(),
            short: String::new(),
            long: String::new(),
            last_updated: String::new(),
            sources: Vec::new(),
        }
    }
}

/// Whether a news item is what a source says.
pub open spec fn is_item(n: NewsItem, v: JsonView) -> bool {
    &&& n.headline@ == sc::words_or_empty(v, "headline"@)
    &&& n.source@ == sc::words_or_empty(v, "source_name"@)
    &&& n.published@ == sc::words_or_empty(v, "publication_time_utc"@)
}

/// Whether news items are what sources say, one for one.
pub open spec fn are_items(items: Seq<NewsItem>, list: Seq<JsonView>) -> bool {
    items.len() == list.len() && forall|i: int|
        0 <= i < list.len() ==> is_item(#[trigger] items[i], list[i])
}

/// The sources that have a headline.
pub open spec fn headed(v: JsonView) -> Seq<JsonView> {
    sc::list_at(v, "sources"@).filter(
        |s: JsonView| sc::words_or_empty(s, "headline"@).len() > 0,
    )
}

/// Whether news are what a payload says.
pub open spec fn is_news(n: SecurityNews, v: JsonView) -> bool {
    &&& n.isin@ == sc::words_or_empty(v, "isin"@)
    &&& n.locale@ == sc::words_or_empty(v, "locale"@)
    &&& n.short@ == sc::words_or_empty(v, "summary/short"@)
    &&& n.long@ == sc::words_or_empty(v, "summary/long"@)
    &&& n.last_updated@ == sc::words_or_empty(v, "summary/last_updated"@)
    &&& are_items(n.sources@, headed(v))
}

impl SecurityNews {
    pub fn from_json(v: &Json) -> (r: SecurityNews)
        ensures
            is_news(r, v.view()),
            listings::says_news(r, v.view()),
    {
        proof {
            assert forall|n: SecurityNews, w: JsonView| #[trigger] is_news(n, w) implies listings::says_news(n, w) by {
                listings::law_news_are_read_by_name(n, w);
            }
        }
        let mut sources: Vec<NewsItem> = Vec::new();
        let ghost all = sc::list_at(v.view(), "sources"@);
        let ghost f = |s: JsonView| sc::words_or_empty(s, "headline"@).len() > 0;
        match array_at(v, "sources") {
            Some(list) => {
                proof {
                    seqs::lemma_filter_none(all, f);
                }
                for i in 0..list.len()
                    invariant
                        all == json::views(list@),
                        f == (|s: JsonView| sc::words_or_empty(s, "headline"@).len() > 0),
                        are_items(sources@, all.take(i as int).filter(f)),
                {
                    let s = &list[i];
                    proof {
                        assert(all[i as int] == s.view());
                        seqs::lemma_filter_next(all, f, i as int);
                    }
                    let item = NewsItem {
                        headline: words_else_empty(s, "headline"),
                        source: words_else_empty(s, "source_name"),
                        published: words_else_empty(s, "publication_time_utc"),
                    };
                    assert(f(all[i as int]) == (item.headline@.len() > 0));
                    if !item.headline.as_str().is_empty() {
                        sources.push(item);
                    }
                }
                assert(all.take(list@.len() as int) =~= all);
            },
            None => {
                proof {
                    assert(all.take(0) =~= all);
                    seqs::lemma_filter_none(all, f);
                }
            },
        }
        let r = SecurityNews {
            isin: words_else_empty(v, "isin"),
            locale: words_else_empty(v, "locale"),
            short: words_else_empty(v, "summary/short"),
            long: words_else_empty(v, "summary/long"),
            last_updated: words_else_empty(v, "summary/last_updated"),
            sources,
        };
        assert(is_news(r, v.view()));
        r
    }

    pub fn is_empty(&self) -> (r: bool)
        ensures
            r == (self.short@.len() == 0 && self.long@.len() == 0 && self.sources@.len() == 0),
    {
        self.short.as_str().is_empty() && self.long.as_str().is_empty() && self.sources.len() == 0
    }
}

} // verus!
