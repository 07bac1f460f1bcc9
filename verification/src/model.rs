//! The data model: a browser entry, the ordered configuration document, and
//! the platform-conditional default document.

use vstd::prelude::*;
use vstd::string::StringExecFns;
use crate::error::Error;
use crate::ident::fresh_id;
use crate::text::str_eq;

verus! {

/// One configured browser choice.
#[derive(Debug)]
pub struct Browser {
    /// Opaque, registry-unique identifier, immutable after creation.
    pub id: String,
    /// Display label, user-editable.
    pub name: String,
    /// Filesystem path or command name of the executable, user-editable.
    pub path: String,
    /// File extension of the associated icon asset, if one exists.
    pub icon: Option<String>,
}

pub ghost struct BrowserV {
    pub id: Seq<char>,
    pub name: Seq<char>,
    pub path: Seq<char>,
    pub icon: Option<Seq<char>>,
}

/// The view of an optional string.
pub open spec fn opt_str_view(o: Option<String>) -> Option<Seq<char>> {
    match o {
        Some(e) => Some(e@),
        None => None,
    }
}

/// The views of a sequence of browsers, element by element.
pub open spec fn bseq_view(bs: Seq<Browser>) -> Seq<BrowserV> {
    Seq::new(bs.len(), |i: int| bs[i]@)
}

impl View for Browser {
    type V = BrowserV;

    open spec fn view(&self) -> BrowserV {
        BrowserV {
            id: self.id@,
            name: self.name@,
            path: self.path@,
            icon: opt_str_view(self.icon),
        }
    }
}

impl Clone for Browser {
    fn clone(&self) -> (r: Self)
        ensures
            r@ == self@,
    {
        Browser {
            id: self.id.clone(),
            name: self.name.clone(),
            path: self.path.clone(),
            icon: match &self.icon {
                Some(e) => Some(e.clone()),
                None => None,
            },
        }
    }
}

/// The ordered list of configured browsers; insertion order is meaningful.
#[derive(Debug)]
pub struct Config {
    pub browsers: Vec<Browser>,
}

pub ghost struct ConfigV {
    pub browsers: Seq<BrowserV>,
}

impl View for Config {
    type V = ConfigV;

    open spec fn view(&self) -> ConfigV {
        ConfigV { browsers: bseq_view(self.browsers@) }
    }
}

impl Clone for Config {
    fn clone(&self) -> (r: Self)
        ensures
            r@ == self@,
    {
        let mut bs: Vec<Browser> = Vec::new();
        let mut i: usize = 0;
        while i < self.browsers.len()
            invariant
                i <= self.browsers.len(),
                bs@.len() == i,
                forall|k: int| 0 <= k < i ==> bs@[k]@ == #[trigger] self.browsers@[k]@,
            decreases self.browsers.len() - i,
        {
            bs.push(self.browsers[i].clone());
            i = i + 1;
        }
        let r = Config { browsers: bs };
        proof {
            assert(r@.browsers =~= self@.browsers);
        }
        r
    }
}

/// The index of the first entry with the given id, if any.
pub open spec fn find_browser(bs: Seq<BrowserV>, id: Seq<char>) -> Option<int>
    decreases bs.len(),
{
    if bs.len() == 0 {
        None
    } else if bs[0].id == id {
        Some(0)
    } else {
        match find_browser(bs.drop_first(), id) {
            Some(i) => Some(i + 1),
            None => None,
        }
    }
}

/// The first entry with the given id, if any.
pub open spec fn lookup_browser(bs: Seq<BrowserV>, id: Seq<char>) -> Option<BrowserV> {
    match find_browser(bs, id) {
        Some(i) => Some(bs[i]),
        None => None,
    }
}

/// No two entries share an id.
pub open spec fn ids_unique(bs: Seq<BrowserV>) -> bool {
    forall|i: int, j: int|
        0 <= i < j < bs.len() ==> (#[trigger] bs[i]).id != (#[trigger] bs[j]).id
}

impl ConfigV {
    /// No two entries share an id.
    pub open spec fn wf(&self) -> bool {
        ids_unique(self.browsers)
    }
}

/// Where `find_browser` answers, the answer is the first matching index;
/// where it does not, no entry matches.
pub proof fn lemma_find_browser_bounds(bs: Seq<BrowserV>, id: Seq<char>)
    ensures
        match find_browser(bs, id) {
            Some(i) => 0 <= i < bs.len() && bs[i].id == id && (forall|k: int|
                0 <= k < i ==> #[trigger] bs[k].id != id),
            None => forall|k: int| 0 <= k < bs.len() ==> #[trigger] bs[k].id != id,
        },
    decreases bs.len(),
{
    if bs.len() > 0 && bs[0].id != id {
        lemma_find_browser_bounds(bs.drop_first(), id);
        match find_browser(bs.drop_first(), id) {
            Some(i) => {
                assert(bs[i + 1] == bs.drop_first()[i]);
                assert forall|k: int| 0 <= k < i + 1 implies #[trigger] bs[k].id != id by {
                    if k > 0 {
                        assert(bs.drop_first()[k - 1].id != id);
                    }
                }
            },
            None => {
                assert forall|k: int| 0 <= k < bs.len() implies #[trigger] bs[k].id != id by {
                    if k > 0 {
                        assert(bs.drop_first()[k - 1].id != id);
                    }
                }
            },
        }
    }
}

/// The index of the first entry of `c` whose id equals `id`.
pub fn find_index(c: &Config, id: &str) -> (r: Option<usize>)
    ensures
        match r {
            Some(i) => i < c.browsers@.len() && find_browser(c@.browsers, id@) == Some(i as int),
            None => find_browser(c@.browsers, id@) is None,
        },
{
    let mut i: usize = 0;
    while i < c.browsers.len()
        invariant
            i <= c.browsers.len(),
            forall|k: int| 0 <= k < i ==> #[trigger] c@.browsers[k].id != id@,
        decreases c.browsers.len() - i,
    {
        if str_eq(c.browsers[i].id.as_str(), id) {
            proof {
                lemma_find_browser_first(c@.browsers, id@, i as int);
            }
            return Some(i);
        }
        i = i + 1;
    }
    proof {
        lemma_find_browser_bounds(c@.browsers, id@);
    }
    None
}

/// If `bs[i]` is the first entry with the given id, `find_browser` returns `i`.
pub proof fn lemma_find_browser_first(bs: Seq<BrowserV>, id: Seq<char>, i: int)
    requires
        0 <= i < bs.len(),
        bs[i].id == id,
        forall|k: int| 0 <= k < i ==> #[trigger] bs[k].id != id,
    ensures
        find_browser(bs, id) == Some(i),
    decreases bs.len(),
{
    if i > 0 {
        assert forall|k: int| 0 <= k < i - 1 implies #[trigger] bs.drop_first()[k].id != id by {
            assert(bs[k + 1].id != id);
        }
        lemma_find_browser_first(bs.drop_first(), id, i - 1);
    }
}

/// Identity uniqueness: appending an entry whose id is not yet present
/// keeps all ids pairwise distinct, and the new id differs from every id
/// already in the registry.
pub proof fn lemma_fresh_id_stays_distinct(bs: Seq<BrowserV>, b: BrowserV)
    requires
        ids_unique(bs),
        lookup_browser(bs, b.id) is None,
    ensures
        ids_unique(bs.push(b)),
        forall|k: int| 0 <= k < bs.len() ==> (#[trigger] bs[k]).id != b.id,
{
    lemma_find_browser_bounds(bs, b.id);
    let u = bs.push(b);
    assert forall|i: int, j: int| 0 <= i < j < u.len() implies (#[trigger] u[i]).id
        != (#[trigger] u[j]).id by {
        if j < bs.len() {
            assert(u[i] == bs[i] && u[j] == bs[j]);
        } else {
            assert(u[j] == b);
            assert(u[i] == bs[i]);
        }
    }
}

/// Add/get consistency: an entry appended under a fresh id is exactly what
/// a later lookup of that id returns.
pub proof fn lemma_lookup_push_fresh(bs: Seq<BrowserV>, b: BrowserV)
    requires
        forall|k: int| 0 <= k < bs.len() ==> (#[trigger] bs[k]).id != b.id,
    ensures
        lookup_browser(bs.push(b), b.id) == Some(b),
{
    let u = bs.push(b);
    assert(u[bs.len() as int] == b);
    assert forall|k: int| 0 <= k < bs.len() implies #[trigger] u[k].id != b.id by {
        assert(u[k] == bs[k]);
    }
    lemma_find_browser_first(u, b.id, bs.len() as int);
}

/// The operating-system family, which decides the default browser paths and
/// whether default-handler registration is available.
#[derive(Clone, Copy, Debug, PartialEq, Eq, Structural)]
pub enum Platform {
    Windows,
    MacOs,
    Other,
}

pub open spec fn default_chrome_path(p: Platform) -> Seq<char> {
    match p {
        Platform::Windows => "C:\\Program Files\\Google\\Chrome\\Application\\chrome.exe"@,
        Platform::MacOs => "/Applications/Google Chrome.app/Contents/MacOS/Google Chrome"@,
        Platform::Other => "google-chrome"@,
    }
}

pub open spec fn default_firefox_path(p: Platform) -> Seq<char> {
    match p {
        Platform::Windows => "C:\\Program Files\\Mozilla Firefox\\firefox.exe"@,
        Platform::MacOs => "/Applications/Firefox.app/Contents/MacOS/firefox"@,
        Platform::Other => "firefox"@,
    }
}

/// The default document shape, whatever the two fresh ids turned out to be.
pub open spec fn is_default_document(c: ConfigV, p: Platform) -> bool {
    &&& c.browsers.len() == 2
    &&& c.browsers[0].id != c.browsers[1].id
    &&& c.browsers[0].name == "Chrome"@
    &&& c.browsers[0].path == default_chrome_path(p)
    &&& c.browsers[0].icon is None
    &&& c.browsers[1].name == "Firefox"@
    &&& c.browsers[1].path == default_firefox_path(p)
    &&& c.browsers[1].icon is None
}

/// What the default document contains, given the two fresh ids.
pub open spec fn is_default_config(c: ConfigV, p: Platform, id1: Seq<char>, id2: Seq<char>) -> bool {
    &&& c.browsers.len() == 2
    &&& c.browsers[0] == (BrowserV {
        id: id1,
        name: "Chrome"@,
        path: default_chrome_path(p),
        icon: None,
    })
    &&& c.browsers[1] == (BrowserV {
        id: id2,
        name: "Firefox"@,
        path: default_firefox_path(p),
        icon: None,
    })
}

/// The platform default document: Chrome and Firefox at their usual
/// installation paths, no icons, under the two given ids.
pub fn default_config(platform: Platform, id1: String, id2: String) -> (r: Config)
    requires
        id1@ != id2@,
    ensures
        is_default_config(r@, platform, id1@, id2@),
        r@.wf(),
{
    let chrome_path = match platform {
        Platform::Windows => String::from_str("C:\\Program Files\\Google\\Chrome\\Application\\chrome.exe"),
        Platform::MacOs => String::from_str("/Applications/Google Chrome.app/Contents/MacOS/Google Chrome"),
        Platform::Other => String::from_str("google-chrome"),
    };
    let firefox_path = match platform {
        Platform::Windows => String::from_str("C:\\Program Files\\Mozilla Firefox\\firefox.exe"),
        Platform::MacOs => String::from_str("/Applications/Firefox.app/Contents/MacOS/firefox"),
        Platform::Other => String::from_str("firefox"),
    };
    let mut browsers: Vec<Browser> = Vec::new();
    browsers.push(Browser {
        id: id1,
        name: String::from_str("Chrome"),
        path: chrome_path,
        icon: None,
    });
    browsers.push(Browser {
        id: id2,
        name: String::from_str("Firefox"),
        path: firefox_path,
        icon: None,
    });
    Config { browsers }
}

/// The default document under freshly generated ids, as constructed on first
/// access when no configuration file exists. The two generated ids are
/// collision-resistant; in the vanishingly unlikely event that they collide,
/// the collision is reported as an I/O failure rather than persisted.
pub fn new_default_config(platform: Platform) -> (r: Result<Config, Error>)
    ensures
        r matches Ok(c) ==> is_default_document(c@, platform),
        r matches Ok(c) ==> c@.wf(),
        r matches Err(e) ==> e matches Error::IoError(_),
{
    let id1 = fresh_id();
    let id2 = fresh_id();
    if str_eq(id1.as_str(), id2.as_str()) {
        return Err(Error::IoError(String::from_str("could not generate distinct browser identifiers")));
    }
    let ghost g1 = id1@;
    let ghost g2 = id2@;
    let c = default_config(platform, id1, id2);
    proof {
        assert(is_default_config(c@, platform, g1, g2));
    }
    Ok(c)
}

} // verus!
