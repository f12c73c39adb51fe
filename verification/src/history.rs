//! Browser history: candidate database locations for every supported
//! browser and install layout, the SQL text that reads them, the
//! cross-browser merge that deduplicates by URL keeping the most recent
//! visit, and the five-minute cache for empty queries.

use vstd::prelude::*;
use vstd::multiset::Multiset;
use vstd::string::StringExecFns;
use crate::text::{str_eq, chars_to_owned};

verus! {

broadcast use vstd::seq_lib::group_to_multiset_ensures;

/// One page from a browser's history database.
#[derive(Clone, Debug)]
pub struct HistoryEntry {
    pub title: String,
    pub url: String,
    pub visit_count: i64,
    pub last_visit: i64,
}

#[verifier::ext_equal]
pub struct HistoryEntryView {
    pub title: Seq<char>,
    pub url: Seq<char>,
    pub visit_count: int,
    pub last_visit: int,
}

impl View for HistoryEntry {
    type V = HistoryEntryView;

    open spec fn view(&self) -> HistoryEntryView {
        HistoryEntryView {
            title: self.title@,
            url: self.url@,
            visit_count: self.visit_count as int,
            last_visit: self.last_visit as int,
        }
    }
}

/// Entries ordered by last visit, most recent first.
pub open spec fn sorted_by_recency(s: Seq<HistoryEntry>) -> bool {
    forall|i: int, j: int|
        0 <= i < j < s.len() ==> (#[trigger] s[i])@.last_visit >= (#[trigger] s[j])@.last_visit
}

/// An entry stands somewhere in the list.
pub open spec fn entry_in(x: HistoryEntry, s: Seq<HistoryEntry>) -> bool {
    exists|j: int| 0 <= j < s.len() && s[j] == x
}

/// Some entry in the list carries this URL.
pub open spec fn url_in(s: Seq<HistoryEntry>, url: Seq<char>) -> bool {
    exists|j: int| 0 <= j < s.len() && (#[trigger] s[j])@.url == url
}

/// A permutation holds the same entries.
proof fn lemma_entry_multiset_membership(a: Seq<HistoryEntry>, b: Seq<HistoryEntry>)
    requires
        a.to_multiset() == b.to_multiset(),
    ensures
        forall|k: int| 0 <= k < a.len() ==> entry_in(#[trigger] a[k], b),
{
    assert forall|k: int| 0 <= k < a.len() implies entry_in(#[trigger] a[k], b) by {
        assert(a.contains(a[k]));
        assert(a.to_multiset().count(a[k]) > 0);
        assert(b.to_multiset().count(a[k]) > 0);
        assert(b.contains(a[k]));
    }
}

/// Sorts history entries by last visit, most recent first.
fn sort_entries(input: Vec<HistoryEntry>) -> (r: Vec<HistoryEntry>)
    ensures
        sorted_by_recency(r@),
        r@.to_multiset() == input@.to_multiset(),
        r@.len() == input@.len(),
{
    let ghost orig = input@;
    let mut src = input;
    let mut out: Vec<HistoryEntry> = Vec::new();
    proof {
        assert(out@.to_multiset().add(src@.to_multiset()) =~= orig.to_multiset());
    }
    while src.len() > 0
        invariant
            out@.to_multiset().add(src@.to_multiset()) == orig.to_multiset(),
            out@.len() + src@.len() == orig.len(),
            sorted_by_recency(out@),
            forall|k: int, l: int|
                0 <= k < out@.len() && 0 <= l < src@.len() ==> (#[trigger] out@[k])@.last_visit
                    >= (#[trigger] src@[l])@.last_visit,
        decreases src@.len(),
    {
        let mut bi: usize = 0;
        let mut j: usize = 1;
        while j < src.len()
            invariant
                bi < j <= src@.len(),
                forall|l: int|
                    0 <= l < j ==> (#[trigger] src@[bi as int])@.last_visit >= src@[l]@.last_visit,
            decreases src@.len() - j,
        {
            if src[j].last_visit > src[bi].last_visit {
                bi = j;
            }
            j = j + 1;
        }
        let ghost old_out = out@;
        let ghost old_src = src@;
        let x = src.remove(bi);
        out.push(x);
        proof {
            assert(old_src[bi as int] == x);
            assert(out@ == old_out.push(x));
            assert(src@ == old_src.remove(bi as int));
            assert(old_out.push(x).to_multiset() =~= old_out.to_multiset().insert(x));
            assert(out@.to_multiset() =~= old_out.to_multiset().insert(x));
            assert(old_src.remove(bi as int).to_multiset() =~= old_src.to_multiset().remove(
                old_src[bi as int],
            ));
            assert(src@.to_multiset() =~= old_src.to_multiset().remove(x));
            assert(old_src.to_multiset().count(x) > 0) by {
                assert(old_src.contains(x));
            }
            assert(out@.to_multiset().add(src@.to_multiset()) =~= old_out.to_multiset().add(
                old_src.to_multiset(),
            ));
            assert forall|k: int, l: int|
                0 <= k < out@.len() && 0 <= l < src@.len() implies (#[trigger] out@[k])@.last_visit
                >= (#[trigger] src@[l])@.last_visit by {
                let ol = if l < bi {
                    l
                } else {
                    l + 1
                };
                assert(src@[l] == old_src[ol]);
                if k < old_out.len() {
                    assert(old_out[k]@.last_visit >= old_src[ol]@.last_visit);
                } else {
                    assert(out@[k] == x);
                }
            }
        }
    }
    proof {
        assert(src@.to_multiset() =~= Multiset::<HistoryEntry>::empty());
        assert(out@.to_multiset().add(Multiset::<HistoryEntry>::empty()) =~= out@.to_multiset());
    }
    out
}

/// Whether the list already holds this URL.
fn contains_url(v: &Vec<HistoryEntry>, url: &str) -> (r: bool)
    ensures
        r == url_in(v@, url@),
{
    let mut i: usize = 0;
    while i < v.len()
        invariant
            i <= v@.len(),
            forall|k: int| 0 <= k < i ==> (#[trigger] v@[k])@.url != url@,
        decreases v@.len() - i,
    {
        if str_eq(v[i].url.as_str(), url) {
            return true;
        }
        i = i + 1;
    }
    false
}

/// An entry equal to this one stands in the first `i` slots.
pub open spec fn entry_in_prefix(x: HistoryEntry, s: Seq<HistoryEntry>, i: int) -> bool {
    exists|j: int| 0 <= j < i && s[j] == x
}

/// Merges history entries from every browser: one entry per URL, the
/// one with the most recent visit, most recent URLs first.
pub fn deduplicate_entries(entries: Vec<HistoryEntry>) -> (r: Vec<HistoryEntry>)
    ensures
        sorted_by_recency(r@),
        forall|k: int, l: int|
            0 <= k < l < r@.len() ==> (#[trigger] r@[k])@.url != (#[trigger] r@[l])@.url,
        forall|k: int| 0 <= k < r@.len() ==> entry_in(#[trigger] r@[k], entries@),
        forall|j: int| 0 <= j < entries@.len() ==> url_in(r@, (#[trigger] entries@[j])@.url),
        forall|k: int, j: int|
            0 <= k < r@.len() && 0 <= j < entries@.len() && (#[trigger] r@[k])@.url == (
            #[trigger] entries@[j])@.url ==> r@[k]@.last_visit >= entries@[j]@.last_visit,
{
    let ghost orig = entries@;
    let sorted = sort_entries(entries);
    let ghost sv = sorted@;
    proof {
        lemma_entry_multiset_membership(sv, orig);
        lemma_entry_multiset_membership(orig, sv);
    }
    let mut out: Vec<HistoryEntry> = Vec::new();
    let mut i: usize = 0;
    while i < sorted.len()
        invariant
            i <= sv.len(),
            sorted@ == sv,
            sorted_by_recency(sv),
            sorted_by_recency(out@),
            forall|k: int, l: int|
                0 <= k < l < out@.len() ==> (#[trigger] out@[k])@.url != (#[trigger] out@[l])@.url,
            forall|k: int| 0 <= k < out@.len() ==> entry_in_prefix(#[trigger] out@[k], sv, i as int),
            forall|j: int| 0 <= j < i ==> url_in(out@, (#[trigger] sv[j])@.url),
            forall|k: int, j: int|
                0 <= k < out@.len() && 0 <= j < i && (#[trigger] out@[k])@.url == (
                #[trigger] sv[j])@.url ==> out@[k]@.last_visit >= sv[j]@.last_visit,
        decreases sv.len() - i,
    {
        let seen = contains_url(&out, sorted[i].url.as_str());
        if !seen {
            let ghost old_out = out@;
            let e = HistoryEntry {
                title: sorted[i].title.clone(),
                url: sorted[i].url.clone(),
                visit_count: sorted[i].visit_count,
                last_visit: sorted[i].last_visit,
            };
            proof {
                assert(e == sv[i as int]);
            }
            out.push(e);
            proof {
                assert(forall|k: int| 0 <= k < old_out.len() ==> out@[k] == old_out[k]);
                assert(out@[old_out.len() as int] == sv[i as int]);
                assert forall|k: int| 0 <= k < out@.len() implies entry_in_prefix(
                    #[trigger] out@[k],
                    sv,
                    i + 1,
                ) by {
                    if k < old_out.len() {
                        let j0 = choose|j0: int| 0 <= j0 < i && sv[j0] == old_out[k];
                        assert(sv[j0] == out@[k]);
                    } else {
                        assert(sv[i as int] == out@[k]);
                    }
                }
                assert forall|k: int| 0 <= k < out@.len() - 1 implies (
                #[trigger] out@[k])@.last_visit >= sv[i as int]@.last_visit by {
                    let j0 = choose|j0: int| 0 <= j0 < i && sv[j0] == old_out[k];
                    assert(sv[j0]@.last_visit >= sv[i as int]@.last_visit);
                }
                assert forall|j: int| 0 <= j < i + 1 implies url_in(out@, (
                #[trigger] sv[j])@.url) by {
                    if j < i {
                        let w = choose|w: int|
                            0 <= w < old_out.len() && (#[trigger] old_out[w])@.url == sv[j]@.url;
                        assert(out@[w]@.url == sv[j]@.url);
                    } else {
                        assert(out@[old_out.len() as int]@.url == sv[j]@.url);
                    }
                }
                assert forall|k: int, j: int|
                    0 <= k < out@.len() && 0 <= j < i + 1 && (#[trigger] out@[k])@.url == (
                    #[trigger] sv[j])@.url implies out@[k]@.last_visit >= sv[j]@.last_visit by {
                    let j0 = choose|j0: int| 0 <= j0 < i + 1 && sv[j0] == out@[k];
                    assert(sv[j0]@.last_visit >= sv[j]@.last_visit || j0 >= j);
                    if j0 <= j {
                        assert(out@[k]@.last_visit >= sv[j]@.last_visit);
                    } else {
                        assert(sv[j]@.last_visit >= sv[j0]@.last_visit);
                        assert(out@[k]@.last_visit >= sv[j]@.last_visit) by {
                            assert(out@[k]@.last_visit == sv[j0]@.last_visit);
                            if j < i && out@[k]@.url == sv[j]@.url && k < out@.len() - 1 {
                                assert(out@[k]@.last_visit >= sv[j]@.last_visit);
                            } else if j == i as int {
                                assert(sv[j0]@.last_visit >= sv[j]@.last_visit || j0 > j);
                                if j0 > j {
                                    assert(false);
                                }
                            } else if k == out@.len() - 1 {
                                assert(out@[k] == sv[i as int]);
                                assert(sv[i as int]@.last_visit >= sv[j]@.last_visit || j < i);
                                if j < i {
                                    assert(url_in(old_out, sv[j]@.url));
                                    let w = choose|w: int|
                                        0 <= w < old_out.len() && (#[trigger] old_out[w])@.url
                                            == sv[j]@.url;
                                    assert(old_out[w]@.url == out@[k]@.url);
                                    assert(false);
                                }
                            }
                        }
                    }
                }
            }
        } else {
            proof {
                assert forall|j: int| 0 <= j < i + 1 implies url_in(out@, (
                #[trigger] sv[j])@.url) by {
                    if j == i {
                        assert(url_in(out@, sv[i as int]@.url));
                    }
                }
                assert forall|k: int, j: int|
                    0 <= k < out@.len() && 0 <= j < i + 1 && (#[trigger] out@[k])@.url == (
                    #[trigger] sv[j])@.url implies out@[k]@.last_visit >= sv[j]@.last_visit by {
                    if j == i {
                        let j0 = choose|j0: int| 0 <= j0 < i && sv[j0] == out@[k];
                        assert(sv[j0]@.last_visit >= sv[i as int]@.last_visit);
                    }
                }
                assert(forall|k: int|
                    0 <= k < out@.len() ==> entry_in_prefix(#[trigger] out@[k], sv, i + 1));
            }
        }
        i = i + 1;
    }
    proof {
        assert forall|k: int| 0 <= k < out@.len() implies entry_in(#[trigger] out@[k], orig) by {
            let j0 = choose|j0: int| 0 <= j0 < sv.len() && sv[j0] == out@[k];
            assert(entry_in(sv[j0], orig));
        }
        assert forall|j: int| 0 <= j < orig.len() implies url_in(out@, (
        #[trigger] orig[j])@.url) by {
            let w = choose|w: int| 0 <= w < sv.len() && sv[w] == orig[j];
            assert(url_in(out@, sv[w]@.url));
        }
        assert forall|k: int, j: int|
            0 <= k < out@.len() && 0 <= j < orig.len() && (#[trigger] out@[k])@.url == (
            #[trigger] orig[j])@.url implies out@[k]@.last_visit >= orig[j]@.last_visit by {
            let w = choose|w: int| 0 <= w < sv.len() && sv[w] == orig[j];
            assert(out@[k]@.last_visit >= sv[w]@.last_visit);
        }
    }
    out
}

/// The cache for empty-query history lookups: a single cell refreshed
/// at most every five minutes.
pub struct HistoryCache {
    entries: Vec<HistoryEntry>,
    last_update_minutes: u64,
    filled: bool,
}

#[verifier::ext_equal]
pub struct HistoryCacheView {
    pub entries: Seq<HistoryEntry>,
    pub last_update_minutes: int,
    pub filled: bool,
}

impl View for HistoryCache {
    type V = HistoryCacheView;

    closed spec fn view(&self) -> HistoryCacheView {
        HistoryCacheView {
            entries: self.entries@,
            last_update_minutes: self.last_update_minutes as int,
            filled: self.filled,
        }
    }
}

/// The cache serves a read without a refresh while it is under five
/// minutes old.
pub open spec fn cache_fresh(v: HistoryCacheView, now: int) -> bool {
    v.filled && now - v.last_update_minutes < 5
}

impl HistoryCache {
    /// An empty cache: the first read always refreshes.
    pub fn new() -> (r: HistoryCache)
        ensures
            !r@.filled,
            r@.entries =~= Seq::<HistoryEntry>::empty(),
    {
        let r = HistoryCache { entries: Vec::new(), last_update_minutes: 0, filled: false };
        proof {
            assert(r@.entries =~= Seq::<HistoryEntry>::empty());
        }
        r
    }

    /// Whether a read right now may be served from the cache.
    pub fn is_fresh(&self, now: u64) -> (r: bool)
        ensures
            r == cache_fresh(self@, now as int),
    {
        self.filled && (self.last_update_minutes > now || now - self.last_update_minutes < 5)
    }

    /// Replaces the cached entries and stamps the refresh time.
    pub fn store(&mut self, entries: Vec<HistoryEntry>, now: u64)
        ensures
            final(self)@.entries == entries@,
            final(self)@.last_update_minutes == now as int,
            final(self)@.filled,
    {
        self.entries = entries;
        self.last_update_minutes = now;
        self.filled = true;
    }

    /// The cached entries.
    pub fn entries(&self) -> (r: &Vec<HistoryEntry>)
        ensures
            r@ == self@.entries,
    {
        &self.entries
    }
}


/// The browsers whose history databases the collector knows.
#[derive(Clone, Copy, Debug, PartialEq, Eq, Structural)]
pub enum BrowserType {
    Firefox,
    Chrome,
    Chromium,
    Brave,
    Opera,
    OperaDeveloper,
    Vivaldi,
}

/// How a browser was installed; each layout keeps its profile data in
/// a different place.
#[derive(Clone, Copy, Debug, PartialEq, Eq, Structural)]
pub enum InstallType {
    Standard,
    Snap,
    Flatpak,
}

/// The display name of a browser.
pub open spec fn browser_name(bt: BrowserType) -> Seq<char> {
    match bt {
        BrowserType::Firefox => "Firefox"@,
        BrowserType::Chrome => "Chrome"@,
        BrowserType::Chromium => "Chromium"@,
        BrowserType::Brave => "Brave"@,
        BrowserType::Opera => "Opera"@,
        BrowserType::OperaDeveloper => "Opera Developer"@,
        BrowserType::Vivaldi => "Vivaldi"@,
    }
}

/// The display name of a browser, for logs and details.
pub fn browser_type_to_string(bt: BrowserType) -> (r: String)
    ensures
        r@ == browser_name(bt),
{
    match bt {
        BrowserType::Firefox => chars_to_owned("Firefox"),
        BrowserType::Chrome => chars_to_owned("Chrome"),
        BrowserType::Chromium => chars_to_owned("Chromium"),
        BrowserType::Brave => chars_to_owned("Brave"),
        BrowserType::Opera => chars_to_owned("Opera"),
        BrowserType::OperaDeveloper => chars_to_owned("Opera Developer"),
        BrowserType::Vivaldi => chars_to_owned("Vivaldi"),
    }
}

/// The snap package name of a browser.
pub open spec fn snap_app_name(bt: BrowserType) -> Seq<char> {
    match bt {
        BrowserType::Firefox => "firefox"@,
        BrowserType::Chrome => "google-chrome"@,
        BrowserType::Chromium => "chromium"@,
        BrowserType::Brave => "brave"@,
        BrowserType::Opera => "opera"@,
        BrowserType::OperaDeveloper => "opera-developer"@,
        BrowserType::Vivaldi => "vivaldi"@,
    }
}

fn snap_app_name_exec(bt: BrowserType) -> (r: String)
    ensures
        r@ == snap_app_name(bt),
{
    match bt {
        BrowserType::Firefox => chars_to_owned("firefox"),
        BrowserType::Chrome => chars_to_owned("google-chrome"),
        BrowserType::Chromium => chars_to_owned("chromium"),
        BrowserType::Brave => chars_to_owned("brave"),
        BrowserType::Opera => chars_to_owned("opera"),
        BrowserType::OperaDeveloper => chars_to_owned("opera-developer"),
        BrowserType::Vivaldi => chars_to_owned("vivaldi"),
    }
}

/// The flatpak application id of a browser.
pub open spec fn flatpak_app_id(bt: BrowserType) -> Seq<char> {
    match bt {
        BrowserType::Firefox => "org.mozilla.firefox"@,
        BrowserType::Chrome => "com.google.Chrome"@,
        BrowserType::Chromium => "org.chromium.Chromium"@,
        BrowserType::Brave => "com.brave.Browser"@,
        BrowserType::Opera => "com.opera.Opera"@,
        BrowserType::OperaDeveloper => "com.opera.OperaDeveloper"@,
        BrowserType::Vivaldi => "com.vivaldi.Vivaldi"@,
    }
}

fn flatpak_app_id_exec(bt: BrowserType) -> (r: String)
    ensures
        r@ == flatpak_app_id(bt),
{
    match bt {
        BrowserType::Firefox => chars_to_owned("org.mozilla.firefox"),
        BrowserType::Chrome => chars_to_owned("com.google.Chrome"),
        BrowserType::Chromium => chars_to_owned("org.chromium.Chromium"),
        BrowserType::Brave => chars_to_owned("com.brave.Browser"),
        BrowserType::Opera => chars_to_owned("com.opera.Opera"),
        BrowserType::OperaDeveloper => chars_to_owned("com.opera.OperaDeveloper"),
        BrowserType::Vivaldi => chars_to_owned("com.vivaldi.Vivaldi"),
    }
}

/// The directory prefix, under the home directory, of an install
/// layout; empty for a standard install. Snap firefox keeps its data
/// under `common`, the other snaps under `current`.
pub open spec fn install_prefix(it: InstallType, bt: BrowserType) -> Seq<char> {
    match it {
        InstallType::Standard => Seq::<char>::empty(),
        InstallType::Snap => "snap/"@ + snap_app_name(bt) + (if bt == BrowserType::Firefox {
            "/common"@
        } else {
            "/current"@
        }),
        InstallType::Flatpak => ".var/app/"@ + flatpak_app_id(bt),
    }
}

/// Computes the install prefix, mirroring `install_prefix`.
pub fn get_install_prefix(it: InstallType, bt: BrowserType) -> (r: String)
    ensures
        r@ == install_prefix(it, bt),
{
    match it {
        InstallType::Standard => {
            let r = String::new();
            proof {
                assert(r@ =~= install_prefix(it, bt));
            }
            r
        },
        InstallType::Snap => {
            let mut r = chars_to_owned("snap/");
            let app = snap_app_name_exec(bt);
            r.append(app.as_str());
            match bt {
                BrowserType::Firefox => r.append("/common"),
                _ => r.append("/current"),
            }
            r
        },
        InstallType::Flatpak => {
            let mut r = chars_to_owned(".var/app/");
            let app = flatpak_app_id_exec(bt);
            r.append(app.as_str());
            r
        },
    }
}

/// The history database locations of a browser, relative to the
/// install prefix. Firefox gives the profile directory to scan for
/// `places.sqlite` instead of a database file.
pub open spec fn base_paths(bt: BrowserType) -> Seq<Seq<char>> {
    match bt {
        BrowserType::Firefox => seq![".mozilla/firefox"@],
        BrowserType::Chrome => seq![
            ".config/google-chrome/Default/History"@,
            ".config/google-chrome/Profile 1/History"@,
        ],
        BrowserType::Chromium => seq![
            ".config/chromium/Default/History"@,
            ".config/chromium/Profile 1/History"@,
        ],
        BrowserType::Brave => seq![
            ".config/BraveSoftware/Brave-Browser/Default/History"@,
            ".config/BraveSoftware/Brave-Browser/Profile 1/History"@,
        ],
        BrowserType::Opera => seq![".config/opera/History"@],
        BrowserType::OperaDeveloper => seq![".config/opera-developer/History"@],
        BrowserType::Vivaldi => seq![".config/vivaldi/Default/History"@],
    }
}

fn base_paths_exec(bt: BrowserType) -> (r: Vec<String>)
    ensures
        r.deep_view() == base_paths(bt),
{
    let mut out: Vec<String> = Vec::new();
    match bt {
        BrowserType::Firefox => {
            out.push(chars_to_owned(".mozilla/firefox"));
        },
        BrowserType::Chrome => {
            out.push(chars_to_owned(".config/google-chrome/Default/History"));
            out.push(chars_to_owned(".config/google-chrome/Profile 1/History"));
        },
        BrowserType::Chromium => {
            out.push(chars_to_owned(".config/chromium/Default/History"));
            out.push(chars_to_owned(".config/chromium/Profile 1/History"));
        },
        BrowserType::Brave => {
            out.push(chars_to_owned(".config/BraveSoftware/Brave-Browser/Default/History"));
            out.push(chars_to_owned(".config/BraveSoftware/Brave-Browser/Profile 1/History"));
        },
        BrowserType::Opera => {
            out.push(chars_to_owned(".config/opera/History"));
        },
        BrowserType::OperaDeveloper => {
            out.push(chars_to_owned(".config/opera-developer/History"));
        },
        BrowserType::Vivaldi => {
            out.push(chars_to_owned(".config/vivaldi/Default/History"));
        },
    }
    proof {
        assert(out.deep_view() =~= base_paths(bt));
    }
    out
}

/// A candidate location under the home directory: the install prefix
/// (when there is one) and the browser-relative path.
pub open spec fn join_path(home: Seq<char>, prefix: Seq<char>, base: Seq<char>) -> Seq<char> {
    if prefix.len() == 0 {
        home + "/"@ + base
    } else {
        home + "/"@ + prefix + "/"@ + base
    }
}

fn join_path_exec(home: &str, prefix: &str, base: &str) -> (r: String)
    ensures
        r@ == join_path(home@, prefix@, base@),
{
    let mut r = chars_to_owned(home);
    r.append("/");
    if prefix.unicode_len() > 0 {
        r.append(prefix);
        r.append("/");
    }
    r.append(base);
    r
}

/// All candidate locations of one browser under one install layout.
pub open spec fn paths_for_install(home: Seq<char>, bt: BrowserType, it: InstallType) -> Seq<
    Seq<char>,
> {
    Seq::new(
        base_paths(bt).len(),
        |i: int| join_path(home, install_prefix(it, bt), base_paths(bt)[i]),
    )
}

/// All candidate locations of one browser across install layouts.
pub open spec fn paths_for_installs(
    home: Seq<char>,
    bt: BrowserType,
    its: Seq<InstallType>,
) -> Seq<Seq<char>>
    decreases its.len(),
{
    if its.len() == 0 {
        Seq::empty()
    } else {
        paths_for_installs(home, bt, its.drop_last()) + paths_for_install(home, bt, its.last())
    }
}

/// Builds every candidate database location of a browser.
pub fn build_browser_paths(home: &str, bt: BrowserType, its: &Vec<InstallType>) -> (r: Vec<String>)
    ensures
        r.deep_view() == paths_for_installs(home@, bt, its@),
{
    let mut out: Vec<String> = Vec::new();
    let mut i: usize = 0;
    proof {
        assert(its@.take(0int) =~= Seq::<InstallType>::empty());
        assert(out.deep_view() =~= paths_for_installs(home@, bt, its@.take(0int)));
    }
    while i < its.len()
        invariant
            i <= its@.len(),
            out.deep_view() == paths_for_installs(home@, bt, its@.take(i as int)),
        decreases its@.len() - i,
    {
        let prefix = get_install_prefix(its[i], bt);
        let bases = base_paths_exec(bt);
        let mut j: usize = 0;
        let ghost mid = out.deep_view();
        while j < bases.len()
            invariant
                j <= bases@.len(),
                bases.deep_view() == base_paths(bt),
                bases@.len() == base_paths(bt).len(),
                prefix@ == install_prefix(its@[i as int], bt),
                i < its@.len(),
                out.deep_view() == mid + paths_for_install(home@, bt, its@[i as int]).take(
                    j as int,
                ),
            decreases bases@.len() - j,
        {
            let ghost old_dv = out.deep_view();
            let ghost old_v = out@;
            let p = join_path_exec(home, prefix.as_str(), bases[j].as_str());
            proof {
                assert(bases.deep_view()[j as int] == bases@[j as int]@);
                assert(p@ == paths_for_install(home@, bt, its@[i as int])[j as int]);
            }
            out.push(p);
            proof {
                assert forall|k: int| 0 <= k < out@.len() implies out.deep_view()[k]
                    == old_dv.push(p@)[k] by {
                    if k < old_v.len() {
                        assert(out@[k] == old_v[k]);
                    } else {
                        assert(out@[k] == p);
                    }
                }
                assert(out.deep_view() =~= old_dv.push(p@));
                assert(out.deep_view() =~= mid + paths_for_install(home@, bt, its@[i as int]).take(
                    j + 1,
                ));
            }
            j = j + 1;
        }
        proof {
            assert(paths_for_install(home@, bt, its@[i as int]).take(
                base_paths(bt).len() as int,
            ) =~= paths_for_install(home@, bt, its@[i as int]));
            assert(its@.take(i + 1).drop_last() =~= its@.take(i as int));
            assert(its@.take(i + 1).last() == its@[i as int]);
            assert(out.deep_view() =~= paths_for_installs(home@, bt, its@.take(i + 1)));
        }
        i = i + 1;
    }
    proof {
        assert(its@.take(its@.len() as int) =~= its@);
    }
    out
}

/// The three install layouts every browser but Opera Developer is
/// looked for under; Opera Developer only ships as a standard install.
pub fn supported_install_types(bt: BrowserType) -> (r: Vec<InstallType>)
    ensures
        bt == BrowserType::OperaDeveloper ==> r@ =~= seq![InstallType::Standard],
        bt != BrowserType::OperaDeveloper ==> r@ =~= seq![
            InstallType::Standard,
            InstallType::Snap,
            InstallType::Flatpak,
        ],
{
    let mut v: Vec<InstallType> = Vec::new();
    v.push(InstallType::Standard);
    match bt {
        BrowserType::OperaDeveloper => v,
        _ => {
            v.push(InstallType::Snap);
            v.push(InstallType::Flatpak);
            v
        },
    }
}

/// Every supported browser with its candidate database locations.
pub fn get_supported_browsers(home: &str) -> (r: Vec<(BrowserType, Vec<String>)>)
    ensures
        r@.len() == 7,
        forall|k: int| 0 <= k < 7 ==> (#[trigger] r@[k]).1.deep_view() == paths_for_installs(
            home@,
            r@[k].0,
            if r@[k].0 == BrowserType::OperaDeveloper {
                seq![InstallType::Standard]
            } else {
                seq![InstallType::Standard, InstallType::Snap, InstallType::Flatpak]
            },
        ),
        r@[0].0 == BrowserType::Firefox,
        r@[1].0 == BrowserType::Chrome,
        r@[2].0 == BrowserType::Chromium,
        r@[3].0 == BrowserType::Brave,
        r@[4].0 == BrowserType::Opera,
        r@[5].0 == BrowserType::OperaDeveloper,
        r@[6].0 == BrowserType::Vivaldi,
{
    let mut out: Vec<(BrowserType, Vec<String>)> = Vec::new();
    let order = browser_order();
    let mut i: usize = 0;
    while i < order.len()
        invariant
            i <= order@.len(),
            order@ =~= seq![
                BrowserType::Firefox,
                BrowserType::Chrome,
                BrowserType::Chromium,
                BrowserType::Brave,
                BrowserType::Opera,
                BrowserType::OperaDeveloper,
                BrowserType::Vivaldi,
            ],
            out@.len() == i,
            forall|k: int| 0 <= k < i ==> (#[trigger] out@[k]).0 == order@[k],
            forall|k: int| 0 <= k < i ==> (#[trigger] out@[k]).1.deep_view() == paths_for_installs(
                home@,
                out@[k].0,
                if out@[k].0 == BrowserType::OperaDeveloper {
                    seq![InstallType::Standard]
                } else {
                    seq![InstallType::Standard, InstallType::Snap, InstallType::Flatpak]
                },
            ),
        decreases order@.len() - i,
    {
        let bt = order[i];
        let installs = supported_install_types(bt);
        let paths = build_browser_paths(home, bt, &installs);
        out.push((bt, paths));
        i = i + 1;
    }
    out
}

fn browser_order() -> (r: Vec<BrowserType>)
    ensures
        r@ =~= seq![
            BrowserType::Firefox,
            BrowserType::Chrome,
            BrowserType::Chromium,
            BrowserType::Brave,
            BrowserType::Opera,
            BrowserType::OperaDeveloper,
            BrowserType::Vivaldi,
        ],
{
    let mut v: Vec<BrowserType> = Vec::new();
    v.push(BrowserType::Firefox);
    v.push(BrowserType::Chrome);
    v.push(BrowserType::Chromium);
    v.push(BrowserType::Brave);
    v.push(BrowserType::Opera);
    v.push(BrowserType::OperaDeveloper);
    v.push(BrowserType::Vivaldi);
    proof {
        assert(v@ =~= seq![
            BrowserType::Firefox,
            BrowserType::Chrome,
            BrowserType::Chromium,
            BrowserType::Brave,
            BrowserType::Opera,
            BrowserType::OperaDeveloper,
            BrowserType::Vivaldi,
        ]);
    }
    v
}

/// The SQL filter appended to a Firefox query for a search term.
pub open spec fn firefox_like_condition(term: Seq<char>) -> Seq<char> {
    if term.len() == 0 {
        Seq::empty()
    } else {
        "AND (p.title LIKE '%"@ + term + "%' OR p.url LIKE '%"@ + term + "%') "@
    }
}

/// The SQL filter appended to a Chromium-family query for a search
/// term.
pub open spec fn chromium_like_condition(term: Seq<char>) -> Seq<char> {
    if term.len() == 0 {
        Seq::empty()
    } else {
        "AND (title LIKE '%"@ + term + "%' OR url LIKE '%"@ + term + "%') "@
    }
}

/// The history query for a Firefox places database: joined visits,
/// internal schemes and low-signal titles excluded, grouped by URL,
/// five most recent rows.
pub fn firefox_history_query(search_term: &str) -> (r: String)
    ensures
        r@ == "SELECT p.title, p.url, p.visit_count, MAX(h.visit_date) as last_visit FROM moz_places p JOIN moz_historyvisits h ON p.id = h.place_id WHERE p.title IS NOT NULL AND p.title != '' AND p.url NOT LIKE 'data:%' AND p.url NOT LIKE 'about:%' AND p.url NOT LIKE 'chrome:%' AND p.url NOT LIKE 'file:%' AND p.url NOT LIKE 'view-source:%' AND p.url NOT LIKE 'edge:%' AND p.url NOT LIKE 'brave:%' AND p.url NOT LIKE 'devtools:%' AND p.url NOT LIKE 'blob:%' AND length(p.url) < 1000 AND p.title NOT LIKE '% - Google Search' AND p.title NOT LIKE '% - Brave Search' AND p.title NOT LIKE '% - DuckDuckGo' AND p.title NOT LIKE 'localhost:%' "@
            + firefox_like_condition(search_term@)
            + "GROUP BY p.url ORDER BY last_visit DESC LIMIT 5"@,
{
    let mut q = chars_to_owned(
        "SELECT p.title, p.url, p.visit_count, MAX(h.visit_date) as last_visit FROM moz_places p JOIN moz_historyvisits h ON p.id = h.place_id WHERE p.title IS NOT NULL AND p.title != '' AND p.url NOT LIKE 'data:%' AND p.url NOT LIKE 'about:%' AND p.url NOT LIKE 'chrome:%' AND p.url NOT LIKE 'file:%' AND p.url NOT LIKE 'view-source:%' AND p.url NOT LIKE 'edge:%' AND p.url NOT LIKE 'brave:%' AND p.url NOT LIKE 'devtools:%' AND p.url NOT LIKE 'blob:%' AND length(p.url) < 1000 AND p.title NOT LIKE '% - Google Search' AND p.title NOT LIKE '% - Brave Search' AND p.title NOT LIKE '% - DuckDuckGo' AND p.title NOT LIKE 'localhost:%' ",
    );
    if search_term.unicode_len() > 0 {
        q.append("AND (p.title LIKE '%");
        q.append(search_term);
        q.append("%' OR p.url LIKE '%");
        q.append(search_term);
        q.append("%') ");
    }
    q.append("GROUP BY p.url ORDER BY last_visit DESC LIMIT 5");
    proof {
        assert(q@ =~= "SELECT p.title, p.url, p.visit_count, MAX(h.visit_date) as last_visit FROM moz_places p JOIN moz_historyvisits h ON p.id = h.place_id WHERE p.title IS NOT NULL AND p.title != '' AND p.url NOT LIKE 'data:%' AND p.url NOT LIKE 'about:%' AND p.url NOT LIKE 'chrome:%' AND p.url NOT LIKE 'file:%' AND p.url NOT LIKE 'view-source:%' AND p.url NOT LIKE 'edge:%' AND p.url NOT LIKE 'brave:%' AND p.url NOT LIKE 'devtools:%' AND p.url NOT LIKE 'blob:%' AND length(p.url) < 1000 AND p.title NOT LIKE '% - Google Search' AND p.title NOT LIKE '% - Brave Search' AND p.title NOT LIKE '% - DuckDuckGo' AND p.title NOT LIKE 'localhost:%' "@
            + firefox_like_condition(search_term@)
            + "GROUP BY p.url ORDER BY last_visit DESC LIMIT 5"@);
    }
    q
}

/// The history query for a Chromium-family database.
pub fn chromium_history_query(search_term: &str) -> (r: String)
    ensures
        r@ == "SELECT title, url, visit_count, MAX(last_visit_time) as last_visit_time FROM urls WHERE title != '' AND url NOT LIKE 'data:%' AND url NOT LIKE 'about:%' AND url NOT LIKE 'chrome:%' AND url NOT LIKE 'file:%' AND url NOT LIKE 'view-source:%' AND url NOT LIKE 'edge:%' AND url NOT LIKE 'brave:%' AND url NOT LIKE 'devtools:%' AND url NOT LIKE 'blob:%' AND length(url) < 1000 AND title NOT LIKE '% - Google Search' AND title NOT LIKE '% - Brave Search' AND title NOT LIKE '% - DuckDuckGo' AND title NOT LIKE 'localhost:%' "@
            + chromium_like_condition(search_term@)
            + "GROUP BY url ORDER BY last_visit_time DESC LIMIT 5"@,
{
    let mut q = chars_to_owned(
        "SELECT title, url, visit_count, MAX(last_visit_time) as last_visit_time FROM urls WHERE title != '' AND url NOT LIKE 'data:%' AND url NOT LIKE 'about:%' AND url NOT LIKE 'chrome:%' AND url NOT LIKE 'file:%' AND url NOT LIKE 'view-source:%' AND url NOT LIKE 'edge:%' AND url NOT LIKE 'brave:%' AND url NOT LIKE 'devtools:%' AND url NOT LIKE 'blob:%' AND length(url) < 1000 AND title NOT LIKE '% - Google Search' AND title NOT LIKE '% - Brave Search' AND title NOT LIKE '% - DuckDuckGo' AND title NOT LIKE 'localhost:%' ",
    );
    if search_term.unicode_len() > 0 {
        q.append("AND (title LIKE '%");
        q.append(search_term);
        q.append("%' OR url LIKE '%");
        q.append(search_term);
        q.append("%') ");
    }
    q.append("GROUP BY url ORDER BY last_visit_time DESC LIMIT 5");
    proof {
        assert(q@ =~= "SELECT title, url, visit_count, MAX(last_visit_time) as last_visit_time FROM urls WHERE title != '' AND url NOT LIKE 'data:%' AND url NOT LIKE 'about:%' AND url NOT LIKE 'chrome:%' AND url NOT LIKE 'file:%' AND url NOT LIKE 'view-source:%' AND url NOT LIKE 'edge:%' AND url NOT LIKE 'brave:%' AND url NOT LIKE 'devtools:%' AND url NOT LIKE 'blob:%' AND length(url) < 1000 AND title NOT LIKE '% - Google Search' AND title NOT LIKE '% - Brave Search' AND title NOT LIKE '% - DuckDuckGo' AND title NOT LIKE 'localhost:%' "@
            + chromium_like_condition(search_term@)
            + "GROUP BY url ORDER BY last_visit_time DESC LIMIT 5"@);
    }
    q
}

/// A field-by-field copy of a list of entries.
pub fn copy_entries(v: &Vec<HistoryEntry>) -> (r: Vec<HistoryEntry>)
    ensures
        r@ == v@,
{
    let mut out: Vec<HistoryEntry> = Vec::new();
    let mut i: usize = 0;
    while i < v.len()
        invariant
            i <= v@.len(),
            out@.len() == i,
            forall|k: int| 0 <= k < i ==> #[trigger] out@[k] == v@[k],
        decreases v@.len() - i,
    {
        out.push(
            HistoryEntry {
                title: v[i].title.clone(),
                url: v[i].url.clone(),
                visit_count: v[i].visit_count,
                last_visit: v[i].last_visit,
            },
        );
        i = i + 1;
    }
    proof {
        assert(out@ =~= v@);
    }
    out
}

/// The facade over browser history: carries one entry once a history
/// page becomes a concrete action.
#[derive(Clone, Debug)]
pub struct BrowserHistoryHandler {
    pub entry: Option<HistoryEntry>,
}

impl BrowserHistoryHandler {
    /// The facade itself, with no page attached yet.
    pub fn new() -> (r: BrowserHistoryHandler)
        ensures
            r.entry is None,
    {
        BrowserHistoryHandler { entry: None }
    }

    /// An action for one history page.
    pub fn with_entry(entry: HistoryEntry) -> (r: BrowserHistoryHandler)
        ensures
            r.entry == Some(entry),
    {
        BrowserHistoryHandler { entry: Some(entry) }
    }

    /// Serves a lookup: an empty query takes the cache while it is
    /// fresh; everything else deduplicates what the collector brought
    /// and, for an empty query, refreshes the cache with it.
    pub fn get_history_entries_for_query(
        cache: &mut HistoryCache,
        query: &str,
        collected: Vec<HistoryEntry>,
        now: u64,
    ) -> (r: Vec<HistoryEntry>)
        ensures
            query@.len() == 0 && cache_fresh(old(cache)@, now as int) ==> r@ == old(
                cache,
            )@.entries && final(cache)@ == old(cache)@,
            !(query@.len() == 0 && cache_fresh(old(cache)@, now as int)) ==> {
                &&& sorted_by_recency(r@)
                &&& forall|k: int, l: int|
                    0 <= k < l < r@.len() ==> (#[trigger] r@[k])@.url != (#[trigger] r@[l])@.url
                &&& forall|k: int| 0 <= k < r@.len() ==> entry_in(#[trigger] r@[k], collected@)
                &&& forall|j: int|
                    0 <= j < collected@.len() ==> url_in(r@, (#[trigger] collected@[j])@.url)
                &&& forall|k: int, j: int|
                    0 <= k < r@.len() && 0 <= j < collected@.len() && (#[trigger] r@[k])@.url == (
                    #[trigger] collected@[j])@.url ==> r@[k]@.last_visit
                        >= collected@[j]@.last_visit
            },
            query@.len() != 0 ==> final(cache)@ == old(cache)@,
            query@.len() == 0 && !cache_fresh(old(cache)@, now as int) ==> final(cache)@.entries
                == r@ && final(cache)@.last_update_minutes == now as int && final(cache)@.filled,
    {
        if query.is_empty() {
            if cache.is_fresh(now) {
                return copy_entries(cache.entries());
            }
            let entries = Self::refresh_history_cache(collected);
            let copy = copy_entries(&entries);
            cache.store(entries, now);
            copy
        } else {
            Self::refresh_history_cache(collected)
        }
    }

    /// Deduplicates what the collector brought, most recent first.
    pub fn refresh_history_cache(collected: Vec<HistoryEntry>) -> (r: Vec<HistoryEntry>)
        ensures
            sorted_by_recency(r@),
            forall|k: int, l: int|
                0 <= k < l < r@.len() ==> (#[trigger] r@[k])@.url != (#[trigger] r@[l])@.url,
            forall|k: int| 0 <= k < r@.len() ==> entry_in(#[trigger] r@[k], collected@),
            forall|j: int|
                0 <= j < collected@.len() ==> url_in(r@, (#[trigger] collected@[j])@.url),
            forall|k: int, j: int|
                0 <= k < r@.len() && 0 <= j < collected@.len() && (#[trigger] r@[k])@.url == (
                #[trigger] collected@[j])@.url ==> r@[k]@.last_visit >= collected@[j]@.last_visit,
    {
        deduplicate_entries(collected)
    }
}

/// Registers the browser-history facade with the registry.
pub struct BrowserHistoryHandlerFactory;

impl BrowserHistoryHandlerFactory {
    pub fn get_id(&self) -> (r: String)
        ensures
            r@ == "browser-history"@,
    {
        chars_to_owned("browser-history")
    }
}

/// Turns matching history pages into concrete actions.
pub struct BrowserHistoryFactory;

impl BrowserHistoryFactory {
    /// The relevance a history page carries into the ranked list: a
    /// floor of fifty plus its visit count, capped at one hundred.
    pub fn entry_relevance(entry: &HistoryEntry) -> (r: u64)
        ensures
            r as int == 50 + (if entry@.visit_count < 0 {
                0int
            } else if entry@.visit_count > 100 {
                100int
            } else {
                entry@.visit_count
            }),
    {
        let vc: i64 = if entry.visit_count < 0 {
            0
        } else if entry.visit_count > 100 {
            100
        } else {
            entry.visit_count
        };
        50 + (vc as u64)
    }
}

} // verus!
