//! Builtin handlers: the fixed set of non-discovered actions (web
//! search engines and the URL opener), the items they contribute to a
//! query, and the registry's merge policy — fallback handlers are a
//! safety net that never outranks a specific match.

use vstd::prelude::*;
use vstd::multiset::Multiset;
use vstd::string::StringExecFns;
use crate::text::dec_str;
use crate::outside::{percent_encode, percent_encoded, url_scheme, url_scheme_of};

verus! {

broadcast use vstd::seq_lib::group_to_multiset_ensures;

/// Identity of an action: a well-known string for builtins, the stored
/// id for discovered actions.
#[derive(Clone, Debug)]
pub enum ActionId {
    Builtin(&'static str),
    Dynamic(u64),
}

/// The two ids name the same action.
pub open spec fn same_action_id(a: ActionId, b: ActionId) -> bool {
    match (a, b) {
        (ActionId::Builtin(x), ActionId::Builtin(y)) => x@ == y@,
        (ActionId::Dynamic(x), ActionId::Dynamic(y)) => x == y,
        _ => false,
    }
}

impl ActionId {
    /// The ledger key of this action id.
    pub fn as_str(&self) -> (r: String)
        ensures
            match self {
                ActionId::Builtin(s) => r@ == s@,
                ActionId::Dynamic(n) => r@ == dec_str(*n as int),
            },
    {
        match self {
            ActionId::Builtin(s) => crate::text::chars_to_owned(s),
            ActionId::Dynamic(n) => crate::text::u64_to_string(*n),
        }
    }
}

/// Decides `same_action_id`.
pub fn matches_action_id(id1: &ActionId, id2: &ActionId) -> (r: bool)
    ensures
        r == same_action_id(*id1, *id2),
{
    match (id1, id2) {
        (ActionId::Builtin(a), ActionId::Builtin(b)) => crate::text::str_eq(a, b),
        (ActionId::Dynamic(a), ActionId::Dynamic(b)) => *a == *b,
        _ => false,
    }
}

/// One entry of the final ranked list: what the presentation layer
/// renders and commits.
#[derive(Clone, Debug)]
pub struct ActionItem {
    pub id: ActionId,
    pub name: String,
    pub detail: String,
    pub relevance: u64,
    pub relevance_boost: u64,
    pub is_fallback: bool,
}

/// The rank of an item: its relevance scaled by its boost.
pub open spec fn item_rank(it: ActionItem) -> int {
    it.relevance * it.relevance_boost
}

impl ActionItem {
    /// Builds an item; fields are stored as given.
    pub fn new(
        id: ActionId,
        name: String,
        detail: String,
        relevance: u64,
        relevance_boost: u64,
        is_fallback: bool,
    ) -> (r: ActionItem)
        ensures
            r.id == id,
            r.name == name,
            r.detail == detail,
            r.relevance == relevance,
            r.relevance_boost == relevance_boost,
            r.is_fallback == is_fallback,
    {
        ActionItem { id, name, detail, relevance, relevance_boost, is_fallback }
    }

    /// The boosted relevance, saturating at the top of the word.
    pub fn relevance(&self) -> (r: u64)
        ensures
            r as int == if item_rank(*self) <= u64::MAX {
                item_rank(*self)
            } else {
                u64::MAX as int
            },
    {
        match self.relevance.checked_mul(self.relevance_boost) {
            Some(p) => p,
            None => u64::MAX,
        }
    }
}

/// Compares two items by boosted relevance, higher first.
fn item_before(a: &ActionItem, b: &ActionItem) -> (r: bool)
    ensures
        r == (item_rank(*a) >= item_rank(*b)),
{
    proof {
        vstd::arithmetic::mul::lemma_mul_upper_bound(
            a.relevance as int,
            0xFFFF_FFFF_FFFF_FFFF,
            a.relevance_boost as int,
            0xFFFF_FFFF_FFFF_FFFF,
        );
        vstd::arithmetic::mul::lemma_mul_upper_bound(
            b.relevance as int,
            0xFFFF_FFFF_FFFF_FFFF,
            b.relevance_boost as int,
            0xFFFF_FFFF_FFFF_FFFF,
        );
    }
    let pa = (a.relevance as u128) * (a.relevance_boost as u128);
    let pb = (b.relevance as u128) * (b.relevance_boost as u128);
    pa >= pb
}

/// Items ordered by boosted relevance, descending.
pub open spec fn sorted_items(s: Seq<ActionItem>) -> bool {
    forall|i: int, j: int|
        0 <= i < j < s.len() ==> item_rank(#[trigger] s[i]) >= item_rank(#[trigger] s[j])
}

/// Sorts items by boosted relevance, descending; a permutation of the
/// input.
pub fn sort_items(input: Vec<ActionItem>) -> (r: Vec<ActionItem>)
    ensures
        sorted_items(r@),
        r@.to_multiset() == input@.to_multiset(),
        r@.len() == input@.len(),
        (forall|i: int| 0 <= i < input@.len() ==> !(#[trigger] input@[i]).is_fallback)
            ==> (forall|i: int| 0 <= i < r@.len() ==> !(#[trigger] r@[i]).is_fallback),
{
    let ghost orig = input@;
    let ghost nofb = forall|i: int| 0 <= i < orig.len() ==> !(#[trigger] orig[i]).is_fallback;
    let mut src = input;
    let mut out: Vec<ActionItem> = Vec::new();
    proof {
        assert(out@.to_multiset().add(src@.to_multiset()) =~= orig.to_multiset());
    }
    while src.len() > 0
        invariant
            out@.to_multiset().add(src@.to_multiset()) == orig.to_multiset(),
            out@.len() + src@.len() == orig.len(),
            sorted_items(out@),
            forall|k: int, l: int|
                0 <= k < out@.len() && 0 <= l < src@.len() ==> item_rank(#[trigger] out@[k])
                    >= item_rank(#[trigger] src@[l]),
            nofb == (forall|i: int| 0 <= i < orig.len() ==> !(#[trigger] orig[i]).is_fallback),
            nofb ==> forall|i: int| 0 <= i < out@.len() ==> !(#[trigger] out@[i]).is_fallback,
            nofb ==> forall|i: int| 0 <= i < src@.len() ==> !(#[trigger] src@[i]).is_fallback,
        decreases src@.len(),
    {
        let mut bi: usize = 0;
        let mut j: usize = 1;
        while j < src.len()
            invariant
                bi < j <= src@.len(),
                forall|l: int|
                    0 <= l < j ==> item_rank(#[trigger] src@[bi as int]) >= item_rank(src@[l]),
            decreases src@.len() - j,
        {
            if item_before(&src[j], &src[bi]) {
                bi = j;
            }
            j = j + 1;
        }
        let ghost old_out = out@;
        let ghost old_src = src@;
        let x = src.remove(bi);
        out.push(x);
        proof {
            assert(old_src[bi as int] == x);
            assert(out@ == old_out.push(x));
            assert(src@ == old_src.remove(bi as int));
            assert(old_out.push(x).to_multiset() =~= old_out.to_multiset().insert(x));
            assert(out@.to_multiset() =~= old_out.to_multiset().insert(x));
            assert(old_src.remove(bi as int).to_multiset() =~= old_src.to_multiset().remove(
                old_src[bi as int],
            ));
            assert(src@.to_multiset() =~= old_src.to_multiset().remove(x));
            assert(old_src.to_multiset().count(x) > 0) by {
                assert(old_src.contains(x));
            }
            assert(out@.to_multiset().add(src@.to_multiset()) =~= old_out.to_multiset().add(
                old_src.to_multiset(),
            ));
            assert forall|k: int, l: int|
                0 <= k < out@.len() && 0 <= l < src@.len() implies item_rank(#[trigger] out@[k])
                >= item_rank(#[trigger] src@[l]) by {
                let ol = if l < bi {
                    l
                } else {
                    l + 1
                };
                assert(src@[l] == old_src[ol]);
                if k < old_out.len() {
                    assert(item_rank(old_out[k]) >= item_rank(old_src[ol]));
                } else {
                    assert(out@[k] == x);
                }
            }
            if nofb {
                assert forall|i: int| 0 <= i < src@.len() implies !(#[trigger] src@[i]).is_fallback
                    by {
                    let oi = if i < bi {
                        i
                    } else {
                        i + 1
                    };
                    assert(src@[i] == old_src[oi]);
                }
            }
        }
    }
    proof {
        assert(src@.to_multiset() =~= Multiset::<ActionItem>::empty());
        assert(out@.to_multiset().add(Multiset::<ActionItem>::empty()) =~= out@.to_multiset());
    }
    out
}

/// The registry's merge policy: the sorted normal items first, then
/// every fallback item, whatever relevance it carries.
pub fn merge_with_fallbacks(normal: Vec<ActionItem>, fallback: Vec<ActionItem>) -> (r: Vec<
    ActionItem,
>)
    ensures
        r@.len() == normal@.len() + fallback@.len(),
        sorted_items(r@.take(normal@.len() as int)),
        r@.take(normal@.len() as int).to_multiset() == normal@.to_multiset(),
        r@.skip(normal@.len() as int) == fallback@,
{
    let mut sorted = sort_items(normal);
    let ghost sv = sorted@;
    let mut fb = fallback;
    let ghost fv = fb@;
    sorted.append(&mut fb);
    proof {
        assert(sorted@ == sv + fv);
        assert(sorted@.take(sv.len() as int) =~= sv);
        assert(sorted@.skip(sv.len() as int) =~= fv);
    }
    sorted
}

/// Fallback handlers never outrank a normal match: in the merged list,
/// every non-fallback item stands before every fallback item, whatever
/// the relevance numbers say.
pub proof fn lemma_fallbacks_never_outrank(
    r: Seq<ActionItem>,
    normal: Seq<ActionItem>,
    fallback: Seq<ActionItem>,
)
    requires
        r.len() == normal.len() + fallback.len(),
        r.take(normal.len() as int).to_multiset() == normal.to_multiset(),
        r.skip(normal.len() as int) == fallback,
        forall|i: int| 0 <= i < normal.len() ==> !(#[trigger] normal[i]).is_fallback,
        forall|i: int| 0 <= i < fallback.len() ==> (#[trigger] fallback[i]).is_fallback,
    ensures
        forall|i: int, j: int|
            0 <= i < r.len() && 0 <= j < r.len() && !(#[trigger] r[i]).is_fallback && (
            #[trigger] r[j]).is_fallback ==> i < j,
{
    broadcast use vstd::seq_lib::group_to_multiset_ensures;

    let pre = r.take(normal.len() as int);
    assert forall|i: int| 0 <= i < pre.len() implies !(#[trigger] pre[i]).is_fallback by {
        assert(pre.contains(pre[i]));
        assert(pre.to_multiset().count(pre[i]) > 0);
        assert(normal.to_multiset().count(pre[i]) > 0);
        assert(normal.contains(pre[i]));
        let w = choose|w: int| 0 <= w < normal.len() && normal[w] == pre[i];
        assert(!normal[w].is_fallback);
    }
    assert forall|i: int, j: int|
        0 <= i < r.len() && 0 <= j < r.len() && !(#[trigger] r[i]).is_fallback && (
        #[trigger] r[j]).is_fallback implies i < j by {
        if i >= normal.len() {
            assert(r[i] == r.skip(normal.len() as int)[i - normal.len()]);
            assert(r[i].is_fallback);
        }
        if j < normal.len() {
            assert(r[j] == pre[j]);
            assert(!r[j].is_fallback);
        }
    }
}

/// The generic Google web search: the fallback safety net.
pub struct GoogleHandler;

impl GoogleHandler {
    pub fn get_id(&self) -> (r: ActionId)
        ensures
            r matches ActionId::Builtin(s) && s@ == "google-search"@,
    {
        ActionId::Builtin("google-search")
    }

    pub fn get_name(&self) -> (r: String)
        ensures
            r@ == "Google Search"@,
    {
        crate::text::chars_to_owned("Google Search")
    }

    /// Accepts any non-empty input.
    pub fn accepts(&self, input: &str) -> (r: bool)
        ensures
            r == (input@.len() != 0),
    {
        !input.is_empty()
    }

    /// The search page for a query, percent-encoded.
    pub fn search_url(&self, input: &str) -> (r: String)
        ensures
            r@ == "https://www.google.com/search?q="@ + percent_encoded(input@),
    {
        let mut url = crate::text::chars_to_owned("https://www.google.com/search?q=");
        let encoded = percent_encode(input);
        url.append(encoded.as_str());
        url
    }

    pub fn is_fallback(&self) -> (r: bool)
        ensures
            r == true,
    {
        true
    }
}

/// DuckDuckGo web search.
pub struct DuckDuckGoHandler;

impl DuckDuckGoHandler {
    pub fn get_id(&self) -> (r: ActionId)
        ensures
            r matches ActionId::Builtin(s) && s@ == "duckduckgo-search"@,
    {
        ActionId::Builtin("duckduckgo-search")
    }

    pub fn get_name(&self) -> (r: String)
        ensures
            r@ == "DuckDuckGo Search"@,
    {
        crate::text::chars_to_owned("DuckDuckGo Search")
    }

    pub fn accepts(&self, input: &str) -> (r: bool)
        ensures
            r == (input@.len() != 0),
    {
        !input.is_empty()
    }

    pub fn search_url(&self, input: &str) -> (r: String)
        ensures
            r@ == "https://duckduckgo.com/?q="@ + percent_encoded(input@),
    {
        let mut url = crate::text::chars_to_owned("https://duckduckgo.com/?q=");
        let encoded = percent_encode(input);
        url.append(encoded.as_str());
        url
    }

    pub fn is_fallback(&self) -> (r: bool)
        ensures
            r == false,
    {
        false
    }
}

/// Perplexity web search.
pub struct PerplexityHandler;

impl PerplexityHandler {
    pub fn get_id(&self) -> (r: ActionId)
        ensures
            r matches ActionId::Builtin(s) && s@ == "perplexity-search"@,
    {
        ActionId::Builtin("perplexity-search")
    }

    pub fn get_name(&self) -> (r: String)
        ensures
            r@ == "Perplexity Search"@,
    {
        crate::text::chars_to_owned("Perplexity Search")
    }

    pub fn accepts(&self, input: &str) -> (r: bool)
        ensures
            r == (input@.len() != 0),
    {
        !input.is_empty()
    }

    pub fn search_url(&self, input: &str) -> (r: String)
        ensures
            r@ == "https://www.perplexity.ai/?q="@ + percent_encoded(input@),
    {
        let mut url = crate::text::chars_to_owned("https://www.perplexity.ai/?q=");
        let encoded = percent_encode(input);
        url.append(encoded.as_str());
        url
    }

    pub fn is_fallback(&self) -> (r: bool)
        ensures
            r == false,
    {
        false
    }
}

/// Yandex web search.
pub struct YandexHandler;

/// Registers the Yandex handler with the registry.
pub struct YandexHandlerFactory;

impl YandexHandlerFactory {
    pub fn get_id(&self) -> (r: String)
        ensures
            r@ == "yandex-search"@,
    {
        crate::text::chars_to_owned("yandex-search")
    }
}

impl YandexHandler {
    pub fn get_id(&self) -> (r: ActionId)
        ensures
            r matches ActionId::Builtin(s) && s@ == "yandex-search"@,
    {
        ActionId::Builtin("yandex-search")
    }

    pub fn get_name(&self) -> (r: String)
        ensures
            r@ == "Yandex Search"@,
    {
        crate::text::chars_to_owned("Yandex Search")
    }

    pub fn accepts(&self, input: &str) -> (r: bool)
        ensures
            r == (input@.len() != 0),
    {
        !input.is_empty()
    }

    pub fn search_url(&self, input: &str) -> (r: String)
        ensures
            r@ == "https://yandex.com/search/?text="@ + percent_encoded(input@),
    {
        let mut url = crate::text::chars_to_owned("https://yandex.com/search/?text=");
        let encoded = percent_encode(input);
        url.append(encoded.as_str());
        url
    }

    pub fn is_fallback(&self) -> (r: bool)
        ensures
            r == false,
    {
        false
    }
}

/// Opens a typed URL directly.
pub struct UrlHandler;

/// Registers the URL opener with the registry.
pub struct UrlHandlerFactory;

impl UrlHandlerFactory {
    pub fn get_id(&self) -> (r: String)
        ensures
            r@ == "url-open"@,
    {
        crate::text::chars_to_owned("url-open")
    }

    /// The URL opener contributes an item exactly when the query
    /// parses as an absolute URL.
    pub fn accepts_query(&self, query: &str) -> (r: bool)
        ensures
            r == (query@.len() != 0 && url_scheme_of(query@) is Some),
    {
        if query.is_empty() {
            return false;
        }
        match url_scheme(query) {
            Some(_) => true,
            None => false,
        }
    }
}

impl UrlHandler {
    pub fn get_id(&self) -> (r: ActionId)
        ensures
            r matches ActionId::Builtin(s) && s@ == "url-open"@,
    {
        ActionId::Builtin("url-open")
    }

    pub fn get_name(&self) -> (r: String)
        ensures
            r@ == "Open URL"@,
    {
        crate::text::chars_to_owned("Open URL")
    }

    pub fn is_fallback(&self) -> (r: bool)
        ensures
            r == false,
    {
        false
    }
}

/// Registers the discovered-executable handler with the registry.
pub struct AppHandlerFactory;

impl AppHandlerFactory {
    pub fn get_id(&self) -> (r: String)
        ensures
            r@ == "executable"@,
    {
        crate::text::chars_to_owned("executable")
    }
}

} // verus!
