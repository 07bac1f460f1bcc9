//! The icon asset store: image blobs keyed by browser id and file
//! extension, and the mapping between MIME types and extensions.

use vstd::prelude::*;
use vstd::string::StringExecFns;
use crate::text::str_eq;

verus! {

// ---------------------------------------------------------------------------
// MIME types and file extensions.
// ---------------------------------------------------------------------------

/// The supported MIME types and the extension each one is stored under.
pub open spec fn ext_for_mime_spec(m: Seq<char>) -> Option<Seq<char>> {
    if m == "image/png"@ {
        Some("png"@)
    } else if m == "image/jpeg"@ {
        Some("jpg"@)
    } else if m == "image/webp"@ {
        Some("webp"@)
    } else if m == "image/avif"@ {
        Some("avif"@)
    } else {
        None
    }
}

/// The MIME type reported for a stored extension; unknown extensions are
/// served as opaque bytes.
pub open spec fn mime_for_ext_spec(e: Seq<char>) -> Seq<char> {
    if e == "png"@ {
        "image/png"@
    } else if e == "jpg"@ {
        "image/jpeg"@
    } else if e == "webp"@ {
        "image/webp"@
    } else if e == "avif"@ {
        "image/avif"@
    } else {
        "application/octet-stream"@
    }
}

/// The extension for a supported MIME type, `None` outside the set.
pub fn ext_for_mime(m: &str) -> (r: Option<String>)
    ensures
        match r {
            Some(e) => ext_for_mime_spec(m@) == Some(e@),
            None => ext_for_mime_spec(m@) is None,
        },
{
    if str_eq(m, "image/png") {
        Some(String::from_str("png"))
    } else if str_eq(m, "image/jpeg") {
        Some(String::from_str("jpg"))
    } else if str_eq(m, "image/webp") {
        Some(String::from_str("webp"))
    } else if str_eq(m, "image/avif") {
        Some(String::from_str("avif"))
    } else {
        None
    }
}

/// The MIME type for a stored extension.
pub fn mime_for_ext(e: &str) -> (r: String)
    ensures
        r@ == mime_for_ext_spec(e@),
{
    if str_eq(e, "png") {
        String::from_str("image/png")
    } else if str_eq(e, "jpg") {
        String::from_str("image/jpeg")
    } else if str_eq(e, "webp") {
        String::from_str("image/webp")
    } else if str_eq(e, "avif") {
        String::from_str("image/avif")
    } else {
        String::from_str("application/octet-stream")
    }
}

// ---------------------------------------------------------------------------
// The asset store model.
// ---------------------------------------------------------------------------

/// One stored asset: the image bytes filed under `{id}.{ext}`.
pub struct IconAsset {
    pub id: String,
    pub ext: String,
    pub bytes: Vec<u8>,
}

pub ghost struct IconAssetV {
    pub id: Seq<char>,
    pub ext: Seq<char>,
    pub bytes: Seq<u8>,
}

impl View for IconAsset {
    type V = IconAssetV;

    open spec fn view(&self) -> IconAssetV {
        IconAssetV { id: self.id@, ext: self.ext@, bytes: self.bytes@ }
    }
}

/// The bytes filed under the given key, if present.
pub open spec fn dir_lookup(s: Seq<IconAssetV>, id: Seq<char>, ext: Seq<char>) -> Option<Seq<u8>>
    decreases s.len(),
{
    if s.len() == 0 {
        None
    } else if s[0].id == id && s[0].ext == ext {
        Some(s[0].bytes)
    } else {
        dir_lookup(s.drop_first(), id, ext)
    }
}

/// No two assets share a key.
pub open spec fn dir_wf(s: Seq<IconAssetV>) -> bool {
    forall|i: int, j: int|
        0 <= i < j < s.len() ==> !((#[trigger] s[i]).id == (#[trigger] s[j]).id && s[i].ext
            == s[j].ext)
}

/// An absent key matches no entry, and a present key matches some entry.
pub proof fn lemma_dir_lookup_none(s: Seq<IconAssetV>, id: Seq<char>, ext: Seq<char>)
    ensures
        dir_lookup(s, id, ext) is None <==> (forall|k: int|
            0 <= k < s.len() ==> !((#[trigger] s[k]).id == id && s[k].ext == ext)),
    decreases s.len(),
{
    if s.len() > 0 {
        lemma_dir_lookup_none(s.drop_first(), id, ext);
        if dir_lookup(s, id, ext) is None {
            assert forall|k: int| 0 <= k < s.len() implies !((#[trigger] s[k]).id == id && s[k].ext
                == ext) by {
                if k > 0 {
                    assert(s.drop_first()[k - 1] == s[k]);
                }
            }
        } else {
            if !(s[0].id == id && s[0].ext == ext) {
                let k = choose|k: int|
                    0 <= k < s.drop_first().len() && (#[trigger] s.drop_first()[k]).id == id
                        && s.drop_first()[k].ext == ext;
                assert(s[k + 1] == s.drop_first()[k]);
            }
        }
    }
}

/// Overwriting the entry at `j` with an asset under the same key.
pub proof fn lemma_dir_update(
    s: Seq<IconAssetV>,
    j: int,
    a: IconAssetV,
    qi: Seq<char>,
    qe: Seq<char>,
)
    requires
        dir_wf(s),
        0 <= j < s.len(),
        a.id == s[j].id,
        a.ext == s[j].ext,
    ensures
        dir_lookup(s.update(j, a), qi, qe) == if qi == a.id && qe == a.ext {
            Some(a.bytes)
        } else {
            dir_lookup(s, qi, qe)
        },
    decreases j,
{
    let u = s.update(j, a);
    if j == 0 {
        assert(u[0] == a);
        assert(u.drop_first() =~= s.drop_first());
    } else {
        assert(u[0] == s[0]);
        assert(u.drop_first() =~= s.drop_first().update(j - 1, a));
        assert(dir_wf(s.drop_first())) by {
            assert(forall|x: int, y: int|
                0 <= x < y < s.drop_first().len() ==> (s.drop_first()[x] == #[trigger] s[x + 1]
                    && s.drop_first()[y] == #[trigger] s[y + 1]));
        }
        assert(s.drop_first()[j - 1] == s[j]);
        lemma_dir_update(s.drop_first(), j - 1, a, qi, qe);
        if s[0].id == qi && s[0].ext == qe {
            assert(!(qi == a.id && qe == a.ext));
        }
    }
}

/// Appending an asset under a key not yet present.
pub proof fn lemma_dir_push(s: Seq<IconAssetV>, a: IconAssetV, qi: Seq<char>, qe: Seq<char>)
    requires
        dir_lookup(s, a.id, a.ext) is None,
    ensures
        dir_lookup(s.push(a), qi, qe) == if qi == a.id && qe == a.ext {
            Some(a.bytes)
        } else {
            dir_lookup(s, qi, qe)
        },
    decreases s.len(),
{
    let u = s.push(a);
    if s.len() == 0 {
        assert(u[0] == a);
        assert(u.drop_first() =~= Seq::<IconAssetV>::empty());
        assert(dir_lookup(u.drop_first(), qi, qe) is None);
    } else {
        assert(u[0] == s[0]);
        assert(u.drop_first() =~= s.drop_first().push(a));
        if s[0].id == qi && s[0].ext == qe {
            assert(dir_lookup(u, qi, qe) == Some(s[0].bytes));
            assert(!(qi == a.id && qe == a.ext)) by {
                if qi == a.id && qe == a.ext {
                    assert(dir_lookup(s, a.id, a.ext) == Some(s[0].bytes));
                }
            }
        } else {
            lemma_dir_push(s.drop_first(), a, qi, qe);
            assert(dir_lookup(u, qi, qe) == dir_lookup(u.drop_first(), qi, qe));
        }
    }
}

/// Removing the entry at `j`, the only one under its key.
pub proof fn lemma_dir_remove(s: Seq<IconAssetV>, j: int, qi: Seq<char>, qe: Seq<char>)
    requires
        dir_wf(s),
        0 <= j < s.len(),
    ensures
        dir_lookup(s.remove(j), qi, qe) == if qi == s[j].id && qe == s[j].ext {
            None
        } else {
            dir_lookup(s, qi, qe)
        },
        dir_wf(s.remove(j)),
    decreases j,
{
    let u = s.remove(j);
    assert(dir_wf(u)) by {
        assert forall|x: int, y: int|
            0 <= x < y < u.len() implies !((#[trigger] u[x]).id == (#[trigger] u[y]).id && u[x].ext
            == u[y].ext) by {
            let x0 = if x < j {
                x
            } else {
                x + 1
            };
            let y0 = if y < j {
                y
            } else {
                y + 1
            };
            assert(u[x] == s[x0] && u[y] == s[y0]);
        }
    }
    if j == 0 {
        assert(u =~= s.drop_first());
        if qi == s[0].id && qe == s[0].ext {
            lemma_dir_lookup_none(s.drop_first(), qi, qe);
            assert forall|k: int| 0 <= k < s.drop_first().len() implies !((#[trigger] s.drop_first()[k]).id
                == qi && s.drop_first()[k].ext == qe) by {
                assert(s.drop_first()[k] == s[k + 1]);
            }
        }
    } else {
        assert(u[0] == s[0]);
        assert(u.drop_first() =~= s.drop_first().remove(j - 1));
        assert(dir_wf(s.drop_first())) by {
            assert(forall|x: int, y: int|
                0 <= x < y < s.drop_first().len() ==> (s.drop_first()[x] == #[trigger] s[x + 1]
                    && s.drop_first()[y] == #[trigger] s[y + 1]));
        }
        assert(s.drop_first()[j - 1] == s[j]);
        lemma_dir_remove(s.drop_first(), j - 1, qi, qe);
        if s[0].id == qi && s[0].ext == qe {
            assert(!(qi == s[j].id && qe == s[j].ext));
        }
    }
}

/// A byte-for-byte copy.
pub fn bytes_clone(v: &Vec<u8>) -> (r: Vec<u8>)
    ensures
        r@ == v@,
{
    let mut r: Vec<u8> = Vec::new();
    let mut i: usize = 0;
    while i < v.len()
        invariant
            i <= v.len(),
            r@ =~= v@.subrange(0, i as int),
        decreases v.len() - i,
    {
        r.push(v[i]);
        assert(r@ =~= v@.subrange(0, i + 1 as int));
        i = i + 1;
    }
    assert(r@ =~= v@);
    r
}

/// The in-memory model of the asset directory. The caller keeps it in step
/// with the filesystem by applying the effects that registry mutations
/// return.
pub struct IconDir {
    assets: Vec<IconAsset>,
}

impl View for IconDir {
    type V = Seq<IconAssetV>;

    closed spec fn view(&self) -> Seq<IconAssetV> {
        Seq::new(self.assets@.len(), |i: int| self.assets@[i]@)
    }
}

impl IconDir {
    pub open spec fn wf(&self) -> bool {
        dir_wf(self@)
    }

    /// An empty directory.
    pub fn new() -> (r: IconDir)
        ensures
            r@ == Seq::<IconAssetV>::empty(),
            r.wf(),
    {
        let r = IconDir { assets: Vec::new() };
        proof {
            assert(r@ =~= Seq::<IconAssetV>::empty());
        }
        r
    }

    /// The index of the entry under the given key, if any.
    fn find(&self, id: &str, ext: &str) -> (r: Option<usize>)
        ensures
            match r {
                Some(j) => j < self@.len() && self@[j as int].id == id@ && self@[j as int].ext
                    == ext@ && dir_lookup(self@, id@, ext@) == Some(self@[j as int].bytes),
                None => dir_lookup(self@, id@, ext@) is None,
            },
    {
        let mut i: usize = 0;
        proof {
            assert(self@.skip(0) =~= self@);
        }
        while i < self.assets.len()
            invariant
                i <= self.assets.len(),
                dir_lookup(self@, id@, ext@) == dir_lookup(
                    self@.skip(i as int),
                    id@,
                    ext@,
                ),
            decreases self.assets.len() - i,
        {
            proof {
                assert(self@.skip(i as int)[0] == self@[i as int]);
                assert(self@.skip(i as int).drop_first() =~= self@.skip(i + 1 as int));
            }
            if str_eq(self.assets[i].id.as_str(), id) && str_eq(self.assets[i].ext.as_str(), ext) {
                return Some(i);
            }
            i = i + 1;
        }
        assert(self@.skip(self@.len() as int).len() == 0);
        None
    }

    /// The stored bytes under the key, if present.
    pub fn get(&self, id: &str, ext: &str) -> (r: Option<Vec<u8>>)
        ensures
            match r {
                Some(b) => dir_lookup(self@, id@, ext@) == Some(b@),
                None => dir_lookup(self@, id@, ext@) is None,
            },
    {
        match self.find(id, ext) {
            Some(j) => Some(bytes_clone(&self.assets[j].bytes)),
            None => None,
        }
    }

    /// Files bytes under the key, replacing what was there.
    pub fn put(&mut self, id: String, ext: String, bytes: Vec<u8>)
        requires
            old(self).wf(),
        ensures
            final(self).wf(),
            forall|qi: Seq<char>, qe: Seq<char>|
                #[trigger] dir_lookup(final(self)@, qi, qe) == if qi == id@ && qe == ext@ {
                    Some(bytes@)
                } else {
                    dir_lookup(old(self)@, qi, qe)
                },
    {
        let ghost olds = self@;
        let a = IconAsset { id, ext, bytes };
        match self.find(a.id.as_str(), a.ext.as_str()) {
            Some(j) => {
                self.assets[j] = a;
                proof {
                    assert(self@ =~= olds.update(j as int, a@));
                    assert(dir_wf(self@)) by {
                        assert forall|x: int, y: int| 0 <= x < y < self@.len() implies !((
                        #[trigger] self@[x]).id == (#[trigger] self@[y]).id && self@[x].ext
                            == self@[y].ext) by {
                            assert(olds[x].id == self@[x].id && olds[x].ext == self@[x].ext);
                            assert(olds[y].id == self@[y].id && olds[y].ext == self@[y].ext);
                        }
                    }
                    assert forall|qi: Seq<char>, qe: Seq<char>|
                        #[trigger] dir_lookup(final(self)@, qi, qe) == if qi == a@.id && qe
                            == a@.ext {
                            Some(a@.bytes)
                        } else {
                            dir_lookup(olds, qi, qe)
                        } by {
                        lemma_dir_update(olds, j as int, a@, qi, qe);
                    }
                }
            },
            None => {
                self.assets.push(a);
                proof {
                    assert(self@ =~= olds.push(a@));
                    lemma_dir_lookup_none(olds, a@.id, a@.ext);
                    assert(dir_wf(self@)) by {
                        assert forall|x: int, y: int| 0 <= x < y < self@.len() implies !((
                        #[trigger] self@[x]).id == (#[trigger] self@[y]).id && self@[x].ext
                            == self@[y].ext) by {
                            if y < olds.len() {
                                assert(self@[x] == olds[x] && self@[y] == olds[y]);
                            } else {
                                assert(self@[y] == a@);
                                assert(self@[x] == olds[x]);
                            }
                        }
                    }
                    assert forall|qi: Seq<char>, qe: Seq<char>|
                        #[trigger] dir_lookup(final(self)@, qi, qe) == if qi == a@.id && qe
                            == a@.ext {
                            Some(a@.bytes)
                        } else {
                            dir_lookup(olds, qi, qe)
                        } by {
                        lemma_dir_push(olds, a@, qi, qe);
                    }
                }
            },
        }
    }

    /// Best-effort removal: absence of the key is not an error.
    pub fn remove(&mut self, id: &str, ext: &str)
        requires
            old(self).wf(),
        ensures
            final(self).wf(),
            forall|qi: Seq<char>, qe: Seq<char>|
                #[trigger] dir_lookup(final(self)@, qi, qe) == if qi == id@ && qe == ext@ {
                    None
                } else {
                    dir_lookup(old(self)@, qi, qe)
                },
    {
        let ghost olds = self@;
        match self.find(id, ext) {
            Some(j) => {
                self.assets.remove(j);
                proof {
                    assert(self@ =~= olds.remove(j as int));
                    assert forall|qi: Seq<char>, qe: Seq<char>|
                        #[trigger] dir_lookup(final(self)@, qi, qe) == if qi == id@ && qe == ext@ {
                            None::<Seq<u8>>
                        } else {
                            dir_lookup(olds, qi, qe)
                        } by {
                        lemma_dir_remove(olds, j as int, qi, qe);
                        if !(qi == id@ && qe == ext@) {
                            assert(!(qi == olds[j as int].id && qe == olds[j as int].ext));
                        }
                    }
                    assert(dir_wf(self@)) by {
                        lemma_dir_remove(olds, j as int, id@, ext@);
                    }
                }
            },
            None => {
                proof {
                    lemma_dir_lookup_none(olds, id@, ext@);
                    assert forall|qi: Seq<char>, qe: Seq<char>|
                        #[trigger] dir_lookup(final(self)@, qi, qe) == if qi == id@ && qe == ext@ {
                            None::<Seq<u8>>
                        } else {
                            dir_lookup(olds, qi, qe)
                        } by {
                        if qi == id@ && qe == ext@ {
                        }
                    }
                }
            },
        }
    }
}

} // verus!
