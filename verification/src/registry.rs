//! The browser registry: the aggregate CRUD surface over the configuration
//! document and the icon asset store.
//!
//! The registry is an in-memory, write-through model. Every successful
//! mutation returns the filesystem effects the caller must apply: write the
//! named asset first, then rewrite the configuration document, then perform
//! the best-effort delete — so that no entry is persisted before its asset.

use vstd::prelude::*;
use vstd::string::StringExecFns;
use crate::b64::{b64_decode, b64_encode, b64_of};
use crate::error::Error;
use crate::icons::{
    bytes_clone, dir_lookup, dir_wf, ext_for_mime, ext_for_mime_spec, mime_for_ext,
    mime_for_ext_spec, IconAssetV, IconDir,
};
use crate::ident::fresh_id;
use crate::model::{
    find_browser, find_index, ids_unique, lemma_find_browser_bounds, lemma_fresh_id_stays_distinct,
    lookup_browser, bseq_view, Browser, BrowserV, Config,
};
use crate::text::str_eq;

verus! {

/// An icon served back to a caller: base64 image data and its MIME type.
pub struct BrowserIcon {
    pub data: String,
    pub mime_type: String,
}

/// An asset file the caller must write: `{id}.{ext}` with these bytes.
pub struct IconWrite {
    pub id: String,
    pub ext: String,
    pub bytes: Vec<u8>,
}

/// An asset file the caller should best-effort delete: `{id}.{ext}`.
pub struct IconRemoval {
    pub id: String,
    pub ext: String,
}

/// The outcome of a successful mutation: the id it concerned and the asset
/// effects to apply, write before delete.
pub struct Mutation {
    pub id: String,
    pub write: Option<IconWrite>,
    pub remove: Option<IconRemoval>,
}

pub ghost struct RegistryV {
    pub browsers: Seq<BrowserV>,
    pub icons: Seq<IconAssetV>,
}

/// The registry: the configured browsers and their icon assets.
pub struct Registry {
    config: Config,
    icons: IconDir,
}

impl View for Registry {
    type V = RegistryV;

    closed spec fn view(&self) -> RegistryV {
        RegistryV { browsers: self.config@.browsers, icons: self.icons@ }
    }
}

/// What serving the icon of `id` yields: `None` when the entry is absent,
/// carries no icon tag, or its asset is missing; otherwise the MIME type
/// and the stored bytes.
pub open spec fn served_icon(
    browsers: Seq<BrowserV>,
    icons: Seq<IconAssetV>,
    id: Seq<char>,
) -> Option<(Seq<char>, Seq<u8>)> {
    match lookup_browser(browsers, id) {
        None => None,
        Some(b) => match b.icon {
            None => None,
            Some(ext) => match dir_lookup(icons, id, ext) {
                None => None,
                Some(bytes) => Some((mime_for_ext_spec(ext), bytes)),
            },
        },
    }
}

/// Whether an icon payload accompanies the request.
pub open spec fn wants_icon(d: Option<String>, m: Option<String>) -> bool {
    d is Some && m is Some
}

/// Whether a supplied payload is the base64 text of some bytes.
pub open spec fn decodable_payload(d: Option<String>) -> bool {
    match d {
        Some(p) => exists|b: Seq<u8>| p@ == b64_of(b),
        None => false,
    }
}

/// Whether a supplied payload is the base64 text of no bytes at all.
pub open spec fn undecodable_payload(d: Option<String>) -> bool {
    match d {
        Some(p) => forall|b: Seq<u8>| p@ != b64_of(b),
        None => false,
    }
}

/// The extension a requested payload would be stored under.
pub open spec fn requested_ext(d: Option<String>, m: Option<String>) -> Option<Seq<char>> {
    match (d, m) {
        (Some(_), Some(mm)) => ext_for_mime_spec(mm@),
        _ => None,
    }
}

impl Registry {
    pub open spec fn wf(&self) -> bool {
        ids_unique(self@.browsers) && dir_wf(self@.icons)
    }

    /// Assembles a registry from a loaded document and asset directory.
    /// A document with two entries under one id is malformed.
    pub fn from_parts(config: Config, icons: IconDir) -> (r: Result<Registry, Error>)
        requires
            icons.wf(),
        ensures
            r matches Ok(reg) ==> reg@.browsers == config@.browsers && reg@.icons == icons@
                && reg.wf(),
            r is Ok <==> ids_unique(config@.browsers),
            r matches Err(e) ==> e matches Error::ParseError(_),
    {
        let n = config.browsers.len();
        let mut i: usize = 1;
        while i < n
            invariant
                1 <= i,
                n == config.browsers.len(),
                forall|x: int, y: int|
                    0 <= x < y < i ==> (#[trigger] config@.browsers[x]).id
                        != (#[trigger] config@.browsers[y]).id,
            decreases n - i,
        {
            let mut j: usize = 0;
            while j < i
                invariant
                    j <= i < n,
                    n == config.browsers.len(),
                    forall|x: int|
                        0 <= x < j ==> (#[trigger] config@.browsers[x]).id
                            != config@.browsers[i as int].id,
                decreases i - j,
            {
                if str_eq(config.browsers[j].id.as_str(), config.browsers[i].id.as_str()) {
                    proof {
                        assert(!ids_unique(config@.browsers)) by {
                            assert((config@.browsers[j as int]).id == (config@.browsers[i as int]).id);
                        }
                    }
                    return Err(Error::ParseError(String::from_str("duplicate browser id")));
                }
                j = j + 1;
            }
            proof {
                assert forall|x: int, y: int| 0 <= x < y < i + 1 implies (
                #[trigger] config@.browsers[x]).id != (#[trigger] config@.browsers[y]).id by {
                    if y < i {
                    } else {
                        assert(y == i);
                    }
                }
            }
            i = i + 1;
        }
        assert(ids_unique(config@.browsers));
        Ok(Registry { config, icons })
    }

    /// The configured browsers, in insertion order.
    pub fn list(&self) -> (r: Vec<Browser>)
        ensures
            bseq_view(r@) == self@.browsers,
    {
        let mut r: Vec<Browser> = Vec::new();
        let mut i: usize = 0;
        while i < self.config.browsers.len()
            invariant
                i <= self.config.browsers.len(),
                r@.len() == i,
                forall|k: int| 0 <= k < i ==> r@[k]@ == #[trigger] self.config.browsers@[k]@,
            decreases self.config.browsers.len() - i,
        {
            r.push(self.config.browsers[i].clone());
            i = i + 1;
        }
        proof {
            assert(bseq_view(r@) =~= self@.browsers);
        }
        r
    }

    /// The entry under the given id, or `NotFound`.
    pub fn get(&self, id: &str) -> (r: Result<Browser, Error>)
        ensures
            r matches Ok(b) ==> lookup_browser(self@.browsers, id@) == Some(b@),
            r matches Err(e) ==> lookup_browser(self@.browsers, id@) is None && (e matches
                Error::NotFound(i2) && i2@ == id@),
    {
        match find_index(&self.config, id) {
            Some(i) => Ok(self.config.browsers[i].clone()),
            None => Err(Error::NotFound(String::from_str(id))),
        }
    }

    /// Adds a browser under a freshly generated id and returns it with the
    /// asset write to apply, if an icon accompanied the request. The add is
    /// atomic: on any error nothing is changed.
    pub fn add_browser(
        &mut self,
        name: String,
        path: String,
        icon_data: Option<String>,
        icon_mime: Option<String>,
    ) -> (r: Result<Mutation, Error>)
        requires
            old(self).wf(),
        ensures
            final(self).wf(),
            r matches Err(_) ==> final(self)@ == old(self)@,
            r matches Err(e) ==> (e matches Error::UnsupportedFormat(_) || e matches
                Error::DecodeError(_) || e matches Error::IoError(_)),
            (wants_icon(icon_data, icon_mime) && requested_ext(icon_data, icon_mime) is None) ==> (
            r matches Err(e) && (e matches Error::UnsupportedFormat(m2) && (icon_mime matches Some(
                mm,
            ) && m2@ == mm@))),
            r matches Err(e) ==> (e is UnsupportedFormat ==> (wants_icon(icon_data, icon_mime)
                && requested_ext(icon_data, icon_mime) is None)),
            r matches Err(e) ==> ((e is DecodeError) <==> (requested_ext(icon_data, icon_mime)
                is Some && undecodable_payload(icon_data))),
            r matches Err(e) ==> (e is IoError ==> old(self)@.browsers.len() > 0),
            (old(self)@.browsers.len() == 0 && !wants_icon(icon_data, icon_mime)) ==> r is Ok,
            (old(self)@.browsers.len() == 0 && requested_ext(icon_data, icon_mime) is Some
                && decodable_payload(icon_data)) ==> r is Ok,
            r matches Ok(mu) ==> lookup_browser(old(self)@.browsers, mu.id@) is None && mu.remove
                is None,
            r matches Ok(mu) ==> wants_icon(icon_data, icon_mime) ==> (mu.write matches Some(w)
                && w.id@ == mu.id@ && Some(w.ext@) == requested_ext(icon_data, icon_mime) && (
            icon_data matches Some(d) && d@ == b64_of(w.bytes@))
                && final(self)@.browsers == old(self)@.browsers.push(
                BrowserV { id: mu.id@, name: name@, path: path@, icon: Some(w.ext@) },
            ) && (forall|qi: Seq<char>, qe: Seq<char>|
                #[trigger] dir_lookup(final(self)@.icons, qi, qe) == if qi == mu.id@ && qe
                    == w.ext@ {
                    Some(w.bytes@)
                } else {
                    dir_lookup(old(self)@.icons, qi, qe)
                })),
            r matches Ok(mu) ==> !wants_icon(icon_data, icon_mime) ==> (mu.write is None
                && final(self)@.browsers == old(self)@.browsers.push(
                BrowserV { id: mu.id@, name: name@, path: path@, icon: None },
            ) && final(self)@.icons == old(self)@.icons),
    {
        let id = fresh_id();
        let has_icon = icon_data.is_some() && icon_mime.is_some();
        if has_icon {
            let m = match &icon_mime {
                Some(m) => m,
                None => {
                    proof {
                        assert(false);
                    }
                    return Err(Error::IoError(String::new()));
                },
            };
            let d = match &icon_data {
                Some(d) => d,
                None => {
                    proof {
                        assert(false);
                    }
                    return Err(Error::IoError(String::new()));
                },
            };
            let ext = match ext_for_mime(m.as_str()) {
                Some(e) => e,
                None => {
                    return Err(Error::UnsupportedFormat(m.clone()));
                },
            };
            let bytes = match b64_decode(d.as_str()) {
                Ok(b) => b,
                Err(e) => {
                    return Err(e);
                },
            };
            if let Some(_) = find_index(&self.config, id.as_str()) {
                return Err(Error::IoError(String::from_str(
                    "generated browser identifier already in use",
                )));
            }
            let wbytes = bytes_clone(&bytes);
            let ghost oldb = self@.browsers;
            self.icons.put(id.clone(), ext.clone(), bytes);
            let nb = Browser {
                id: id.clone(),
                name,
                path,
                icon: Some(ext.clone()),
            };
            let ghost nbv = nb@;
            self.config.browsers.push(nb);
            proof {
                assert(self@.browsers =~= oldb.push(nbv));
                lemma_fresh_id_stays_distinct(oldb, nbv);
            }
            Ok(Mutation {
                id: id.clone(),
                write: Some(IconWrite { id, ext, bytes: wbytes }),
                remove: None,
            })
        } else {
            if let Some(_) = find_index(&self.config, id.as_str()) {
                return Err(Error::IoError(String::from_str(
                    "generated browser identifier already in use",
                )));
            }
            let ghost oldb = self@.browsers;
            let nb = Browser { id: id.clone(), name, path, icon: None };
            let ghost nbv = nb@;
            self.config.browsers.push(nb);
            proof {
                assert(self@.browsers =~= oldb.push(nbv));
                lemma_fresh_id_stays_distinct(oldb, nbv);
            }
            Ok(Mutation { id, write: None, remove: None })
        }
    }

    /// Overwrites name and path of the entry under `id` and applies the
    /// requested icon action: keep when no payload is supplied, remove, or
    /// replace (writing the new asset before the superseded one is deleted).
    #[verifier::rlimit(100)]
    pub fn update_browser(
        &mut self,
        id: &str,
        name: String,
        path: String,
        icon_data: Option<String>,
        icon_mime: Option<String>,
        remove_icon: bool,
    ) -> (r: Result<Mutation, Error>)
        requires
            old(self).wf(),
        ensures
            final(self).wf(),
            r matches Err(_) ==> final(self)@ == old(self)@,
            find_browser(old(self)@.browsers, id@) is None ==> (r matches Err(e) && (e matches
                Error::NotFound(i2) && i2@ == id@)),
            r matches Err(e) ==> (e matches Error::NotFound(_) ==> find_browser(
                old(self)@.browsers,
                id@,
            ) is None),
            r matches Err(e) ==> (e matches Error::NotFound(_) || e matches
                Error::UnsupportedFormat(_) || e matches Error::DecodeError(_)),
            (find_browser(old(self)@.browsers, id@) is Some && !remove_icon && wants_icon(
                icon_data,
                icon_mime,
            ) && requested_ext(icon_data, icon_mime) is None) ==> (r matches Err(e) && (e matches
                Error::UnsupportedFormat(m2) && (icon_mime matches Some(mm) && m2@ == mm@))),
            r matches Err(e) ==> (e is UnsupportedFormat ==> (find_browser(
                old(self)@.browsers,
                id@,
            ) is Some && !remove_icon && wants_icon(icon_data, icon_mime) && requested_ext(
                icon_data,
                icon_mime,
            ) is None)),
            r matches Err(e) ==> ((e is DecodeError) <==> (find_browser(old(self)@.browsers, id@)
                is Some && !remove_icon && requested_ext(icon_data, icon_mime) is Some
                && undecodable_payload(icon_data))),
            (find_browser(old(self)@.browsers, id@) is Some && remove_icon) ==> r is Ok,
            (find_browser(old(self)@.browsers, id@) is Some && !remove_icon && !wants_icon(
                icon_data,
                icon_mime,
            )) ==> r is Ok,
            (find_browser(old(self)@.browsers, id@) is Some && !remove_icon && requested_ext(
                icon_data,
                icon_mime,
            ) is Some && decodable_payload(icon_data)) ==> r is Ok,
            r matches Ok(mu) ==> mu.id@ == id@ && (find_browser(old(self)@.browsers, id@) matches
                Some(ix) && {
                let ob = old(self)@.browsers[ix];
                &&& final(self)@.browsers == old(self)@.browsers.update(
                    ix,
                    BrowserV {
                        id: ob.id,
                        name: name@,
                        path: path@,
                        icon: if remove_icon {
                            None
                        } else if wants_icon(icon_data, icon_mime) {
                            requested_ext(icon_data, icon_mime)
                        } else {
                            ob.icon
                        },
                    },
                )
                &&& (remove_icon ==> mu.write is None && (match ob.icon {
                    Some(oe) => mu.remove matches Some(rm) && rm.id@ == id@ && rm.ext@ == oe && (
                    forall|qi: Seq<char>, qe: Seq<char>|
                        #[trigger] dir_lookup(final(self)@.icons, qi, qe) == if qi == id@ && qe
                            == oe {
                            None::<Seq<u8>>
                        } else {
                            dir_lookup(old(self)@.icons, qi, qe)
                        }),
                    None => mu.remove is None && final(self)@.icons == old(self)@.icons,
                }))
                &&& (!remove_icon && wants_icon(icon_data, icon_mime) ==> (mu.write matches Some(w)
                    && w.id@ == id@ && Some(w.ext@) == requested_ext(icon_data, icon_mime) && (
                icon_data matches Some(d) && d@ == b64_of(w.bytes@)) && (match ob.icon {
                    Some(oe) => if oe != w.ext@ {
                        mu.remove matches Some(rm) && rm.id@ == id@ && rm.ext@ == oe && (forall|
                            qi: Seq<char>,
                            qe: Seq<char>,
                        |
                            #[trigger] dir_lookup(final(self)@.icons, qi, qe) == if qi == id@ && qe
                                == w.ext@ {
                                Some(w.bytes@)
                            } else if qi == id@ && qe == oe {
                                None::<Seq<u8>>
                            } else {
                                dir_lookup(old(self)@.icons, qi, qe)
                            })
                    } else {
                        mu.remove is None && (forall|qi: Seq<char>, qe: Seq<char>|
                            #[trigger] dir_lookup(final(self)@.icons, qi, qe) == if qi == id@ && qe
                                == w.ext@ {
                                Some(w.bytes@)
                            } else {
                                dir_lookup(old(self)@.icons, qi, qe)
                            })
                    },
                    None => mu.remove is None && (forall|qi: Seq<char>, qe: Seq<char>|
                        #[trigger] dir_lookup(final(self)@.icons, qi, qe) == if qi == id@ && qe
                            == w.ext@ {
                            Some(w.bytes@)
                        } else {
                            dir_lookup(old(self)@.icons, qi, qe)
                        }),
                })))
                &&& (!remove_icon && !wants_icon(icon_data, icon_mime) ==> mu.write is None
                    && mu.remove is None && final(self)@.icons == old(self)@.icons)
            }),
    {
        let ix = match find_index(&self.config, id) {
            Some(i) => i,
            None => {
                return Err(Error::NotFound(String::from_str(id)));
            },
        };
        proof {
            lemma_find_browser_bounds(self@.browsers, id@);
        }
        let bid = self.config.browsers[ix].id.clone();
        let old_icon: Option<String> = match &self.config.browsers[ix].icon {
            Some(e) => Some(e.clone()),
            None => None,
        };
        let has_icon = icon_data.is_some() && icon_mime.is_some();
        let ghost oldb = self@.browsers;
        let ghost oldd = self@.icons;
        if remove_icon {
            let removal: Option<IconRemoval> = match &old_icon {
                Some(oe) => {
                    self.icons.remove(id, oe.as_str());
                    Some(IconRemoval { id: String::from_str(id), ext: oe.clone() })
                },
                None => None,
            };
            let nb = Browser { id: bid, name, path, icon: None };
            let ghost nbv = nb@;
            self.config.browsers[ix] = nb;
            proof {
                assert(self@.browsers =~= oldb.update(ix as int, nbv));
                lemma_ids_unique_update(oldb, ix as int, nbv);
            }
            Ok(Mutation { id: String::from_str(id), write: None, remove: removal })
        } else if has_icon {
            let m = match &icon_mime {
                Some(m) => m,
                None => {
                    proof {
                        assert(false);
                    }
                    return Err(Error::NotFound(String::new()));
                },
            };
            let d = match &icon_data {
                Some(d) => d,
                None => {
                    proof {
                        assert(false);
                    }
                    return Err(Error::NotFound(String::new()));
                },
            };
            let ext = match ext_for_mime(m.as_str()) {
                Some(e) => e,
                None => {
                    return Err(Error::UnsupportedFormat(m.clone()));
                },
            };
            let bytes = match b64_decode(d.as_str()) {
                Ok(b) => b,
                Err(e) => {
                    return Err(e);
                },
            };
            let wbytes = bytes_clone(&bytes);
            self.icons.put(String::from_str(id), ext.clone(), bytes);
            let removal: Option<IconRemoval> = match &old_icon {
                Some(oe) => {
                    if !str_eq(oe.as_str(), ext.as_str()) {
                        self.icons.remove(id, oe.as_str());
                        Some(IconRemoval { id: String::from_str(id), ext: oe.clone() })
                    } else {
                        None
                    }
                },
                None => None,
            };
            let nb = Browser { id: bid, name, path, icon: Some(ext.clone()) };
            let ghost nbv = nb@;
            self.config.browsers[ix] = nb;
            proof {
                assert(self@.browsers =~= oldb.update(ix as int, nbv));
                lemma_ids_unique_update(oldb, ix as int, nbv);
            }
            Ok(Mutation {
                id: String::from_str(id),
                write: Some(
                    IconWrite { id: String::from_str(id), ext, bytes: wbytes },
                ),
                remove: removal,
            })
        } else {
            let nb = Browser { id: bid, name, path, icon: old_icon };
            let ghost nbv = nb@;
            self.config.browsers[ix] = nb;
            proof {
                assert(self@.browsers =~= oldb.update(ix as int, nbv));
                lemma_ids_unique_update(oldb, ix as int, nbv);
            }
            Ok(Mutation { id: String::from_str(id), write: None, remove: None })
        }
    }

    /// The icon of the entry under `id`: its base64 data and MIME type,
    /// `None` when the entry has no icon or its asset is missing (a missing
    /// file is tolerated, not an error), `NotFound` for an unknown id.
    pub fn get_browser_icon(&self, id: &str) -> (r: Result<Option<BrowserIcon>, Error>)
        ensures
            r matches Err(e) ==> lookup_browser(self@.browsers, id@) is None && (e matches
                Error::NotFound(i2) && i2@ == id@),
            r matches Ok(_) ==> lookup_browser(self@.browsers, id@) is Some,
            r matches Ok(o) ==> (match served_icon(self@.browsers, self@.icons, id@) {
                None => o is None,
                Some((mime, bytes)) => o matches Some(bi) && bi.data@ == b64_of(bytes)
                    && bi.mime_type@ == mime,
            }),
    {
        let ix = match find_index(&self.config, id) {
            Some(i) => i,
            None => {
                return Err(Error::NotFound(String::from_str(id)));
            },
        };
        let ext = match &self.config.browsers[ix].icon {
            Some(e) => e.clone(),
            None => {
                return Ok(None);
            },
        };
        match self.icons.get(id, ext.as_str()) {
            None => Ok(None),
            Some(bytes) => {
                let data = b64_encode(&bytes);
                let mime_type = mime_for_ext(ext.as_str());
                Ok(Some(BrowserIcon { data, mime_type }))
            },
        }
    }
}

/// Icon round trip: after an add stored payload bytes under a fresh id —
/// the new entry appended with the asset's extension, the bytes filed under
/// its key — serving that id yields exactly those bytes and the MIME type
/// of the extension. Together with the serving contract, the base64 data
/// handed back decodes to the stored bytes.
pub proof fn lemma_added_icon_served(
    old_bs: Seq<BrowserV>,
    new_bs: Seq<BrowserV>,
    old_ic: Seq<IconAssetV>,
    new_ic: Seq<IconAssetV>,
    b: BrowserV,
    ext: Seq<char>,
    bytes: Seq<u8>,
)
    requires
        lookup_browser(old_bs, b.id) is None,
        b.icon == Some(ext),
        new_bs == old_bs.push(b),
        forall|qi: Seq<char>, qe: Seq<char>|
            #[trigger] dir_lookup(new_ic, qi, qe) == if qi == b.id && qe == ext {
                Some(bytes)
            } else {
                dir_lookup(old_ic, qi, qe)
            },
    ensures
        served_icon(new_bs, new_ic, b.id) == Some((mime_for_ext_spec(ext), bytes)),
{
    lemma_find_browser_bounds(old_bs, b.id);
    crate::model::lemma_lookup_push_fresh(old_bs, b);
}

/// Icon removal: an entry whose icon tag was cleared serves no icon,
/// whatever the asset directory holds.
pub proof fn lemma_removed_icon_not_served(bs: Seq<BrowserV>, ic: Seq<IconAssetV>, id: Seq<char>)
    requires
        lookup_browser(bs, id) matches Some(b) && b.icon is None,
    ensures
        served_icon(bs, ic, id) == None::<(Seq<char>, Seq<u8>)>,
{
}

/// Icon replacement: once the entry names the new extension, the new bytes
/// are filed under it and the superseded key is gone, serving yields the
/// new asset under its MIME type — the old extension's asset no longer
/// exists and plays no part.
pub proof fn lemma_replaced_icon_served(
    bs: Seq<BrowserV>,
    ic: Seq<IconAssetV>,
    id: Seq<char>,
    new_ext: Seq<char>,
    old_ext: Seq<char>,
    bytes: Seq<u8>,
)
    requires
        lookup_browser(bs, id) matches Some(b) && b.icon == Some(new_ext),
        dir_lookup(ic, id, new_ext) == Some(bytes),
        old_ext != new_ext,
        dir_lookup(ic, id, old_ext) is None,
    ensures
        served_icon(bs, ic, id) == Some((mime_for_ext_spec(new_ext), bytes)),
{
}

/// Overwriting an entry without changing its id keeps all ids distinct.
pub proof fn lemma_ids_unique_update(bs: Seq<BrowserV>, ix: int, nb: BrowserV)
    requires
        ids_unique(bs),
        0 <= ix < bs.len(),
        nb.id == bs[ix].id,
    ensures
        ids_unique(bs.update(ix, nb)),
{
    let u = bs.update(ix, nb);
    assert forall|i: int, j: int| 0 <= i < j < u.len() implies (#[trigger] u[i]).id
        != (#[trigger] u[j]).id by {
        assert(u[i].id == bs[i].id && u[j].id == bs[j].id);
    }
}

} // verus!
