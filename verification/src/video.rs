//! The descriptor types: technical metadata, movie and episode identity,
//! and the `Video` value that ties a file to them.

use vstd::prelude::*;

use crate::element::Element;
use crate::filename::{join_spaces, parse_file_name, scan_upto, split_tokens};
use crate::inject::{inject, spec_inject, TagDict, TagDictV};
use crate::magic::FileType;
use crate::strutil::{spec_decimal, spec_padded2, u64_to_string, u64_to_string_pad2};

verus! {

/// Technical metadata of one video file: picture resolution and, when
/// known, the container's duration value (carried opaquely; this core never
/// computes on it).
#[derive(Debug, Clone, Copy, PartialEq, Eq)]
pub struct Metadata {
    /// (width, height).
    pub resolution: (u64, u64),
    /// The container's duration payload, when known.
    pub length: Option<u64>,
}

impl Metadata {
    /// Builds provisional metadata from a vertical resolution alone, the
    /// width synthesized at a 16:9 aspect ratio.
    pub fn from_vertical_resolution(vertical_resolution: u64, length: Option<u64>) -> (r: Metadata)
        requires
            vertical_resolution / 9 * 16 <= u64::MAX,
        ensures
            r.resolution.0 == vertical_resolution / 9 * 16,
            r.resolution.1 == vertical_resolution,
            r.length == length,
    {
        Metadata { resolution: (vertical_resolution / 9 * 16, vertical_resolution), length }
    }

    /// The canonical display tier of this resolution; a pure function of
    /// `resolution` alone.
    pub fn get_resolution(&self) -> (tier: u64)
        ensures
            tier == crate::spec_classify(self.resolution.0, self.resolution.1),
    {
        crate::classify(self.resolution.0, self.resolution.1)
    }
}

/// A movie or a series.
pub struct Entity {
    pub title: String,
    pub release_year: u32,
    pub imdb_id: Option<String>,
}

/// One episode of a series.
pub struct Episode {
    pub episode: u32,
    pub season: u32,
    pub title: String,
    pub imdb_id: Option<String>,
    pub series: Entity,
}

/// The identity of a video: exactly one of a movie or an episode, each with
/// its technical metadata.
pub enum VideoData {
    Episode(Episode, Metadata),
    Movie(Entity, Metadata),
}

/// The title record of an external identity-lookup result: what this core
/// reads of it, as plain values.
pub struct LookupTitle {
    pub title: String,
    pub start_year: Option<u32>,
    pub id: String,
}

/// The episode record of an external identity-lookup result.
pub struct LookupEpisodeInfo {
    pub episode: Option<u32>,
    pub season: Option<u32>,
    pub id: String,
}

/// One media record of an external identity-lookup result.
pub struct LookupMedia {
    pub title: LookupTitle,
    pub episode: Option<LookupEpisodeInfo>,
}

/// A complete identity-lookup result: a movie record, or an episode record
/// together with its series record.
pub enum LookupResult {
    Movie(LookupMedia),
    Episode(LookupMedia, LookupMedia),
}

/// Why an identity-lookup result could not be folded into an `Episode`.
#[derive(Debug, PartialEq, Eq)]
pub enum IdentityError {
    /// The record carries no episode data at all.
    NoEpisodeData,
    /// The record's episode number is absent.
    NoEpisodeNumber,
    /// The record's season number is absent.
    NoSeasonNumber,
}

impl Entity {
    /// The identity taken from one lookup title record.
    pub fn from_lookup(entity: &LookupTitle) -> (r: Entity)
        ensures
            r.title@ == entity.title@,
            r.release_year == entity.start_year.unwrap_or(0),
            r.imdb_id matches Some(id) && id@ == entity.id@,
    {
        Entity {
            title: entity.title.clone(),
            release_year: match entity.start_year {
                Some(y) => y,
                None => 0,
            },
            imdb_id: Some(entity.id.clone()),
        }
    }
}

impl Episode {
    /// The identity taken from a lookup episode record and its series
    /// record. Fails, leaving nothing behind, when the episode record lacks
    /// episode data or an episode or season number.
    pub fn from_lookup(episode: &LookupMedia, series: &LookupMedia) -> (r: Result<
        Episode,
        IdentityError,
    >)
        ensures
            episode.episode is None ==> r == Err::<Episode, IdentityError>(
                IdentityError::NoEpisodeData,
            ),
            episode.episode matches Some(info) ==> {
                &&& info.episode is None ==> r == Err::<Episode, IdentityError>(
                    IdentityError::NoEpisodeNumber,
                )
                &&& info.episode is Some && info.season is None ==> r == Err::<
                    Episode,
                    IdentityError,
                >(IdentityError::NoSeasonNumber)
                &&& info.episode matches Some(en) ==> info.season matches Some(sn) ==> (r matches
                    Ok(ep) && ep.episode == en && ep.season == sn && ep.title@
                    == episode.title.title@ && (ep.imdb_id matches Some(id) && id@ == info.id@)
                    && ep.series.title@ == series.title.title@ && ep.series.release_year
                    == series.title.start_year.unwrap_or(0) && (ep.series.imdb_id matches Some(
                    sid,
                ) && sid@ == series.title.id@))
            },
    {
        match &episode.episode {
            None => Err(IdentityError::NoEpisodeData),
            Some(info) => {
                let en = match info.episode {
                    Some(en) => en,
                    None => {
                        return Err(IdentityError::NoEpisodeNumber);
                    },
                };
                let sn = match info.season {
                    Some(sn) => sn,
                    None => {
                        return Err(IdentityError::NoSeasonNumber);
                    },
                };
                Ok(
                    Episode {
                        episode: en,
                        season: sn,
                        title: episode.title.title.clone(),
                        imdb_id: Some(info.id.clone()),
                        series: Entity::from_lookup(&series.title),
                    },
                )
            },
        }
    }
}

/// The file name part of a path: everything after the last `/`, empty when
/// the path ends with one.
pub open spec fn basename(p: Seq<char>) -> Seq<char>
    decreases p.len(),
{
    if p.len() == 0 {
        Seq::empty()
    } else if p.last() == '/' {
        Seq::empty()
    } else {
        basename(p.drop_last()).push(p.last())
    }
}

/// The path names no file: its file name part is empty.
#[derive(Debug, PartialEq, Eq)]
pub enum NameError {
    NotAFile,
}

impl NameError {
    /// A human-readable description.
    pub fn message(&self) -> (r: String)
        ensures
            r@ == "Not a file"@,
    {
        "Not a file".to_owned()
    }
}

/// The technical metadata of either identity.
pub open spec fn vd_meta(vd: VideoData) -> Metadata {
    match vd {
        VideoData::Episode(_, m) => m,
        VideoData::Movie(_, m) => m,
    }
}

/// The provisional metadata synthesized from a quality hint alone: width
/// at a 16:9 aspect ratio, no duration; a hint whose synthesized width
/// does not fit is treated like an absent hint.
pub open spec fn spec_synth_meta(q: int) -> Metadata {
    if q / 9 * 16 <= u64::MAX {
        Metadata { resolution: ((q / 9 * 16) as u64, q as u64), length: None }
    } else {
        Metadata { resolution: (0, 0), length: None }
    }
}

/// A video file: its path, sniffed container type, extension, and identity.
pub struct Video {
    pub path: String,
    pub file_type: FileType,
    pub file_extension: String,
    pub info: VideoData,
}

/// The title the injection engine writes into the container: the movie's
/// own title, or the episode's title.
pub open spec fn spec_canonical_title(vd: VideoData) -> Seq<char> {
    match vd {
        VideoData::Movie(ent, _) => ent.title@,
        VideoData::Episode(ep, _) => ep.title@,
    }
}

/// The reserved tag dictionary built for one video: the movie or series
/// title, the release year, the identifier when known, season and episode
/// numbers for episodes; an empty value suppresses the tag, and `COMMENT`
/// is always suppressed so that stale comments are dropped.
pub open spec fn spec_tag_dict(vd: VideoData) -> TagDictV {
    match vd {
        VideoData::Movie(ent, _) => TagDictV {
            title: ent.title@,
            date_released: spec_decimal(ent.release_year as int),
            comment: Seq::empty(),
            imdb: match ent.imdb_id {
                Some(id) => id@,
                None => Seq::empty(),
            },
            episode: Seq::empty(),
            season: Seq::empty(),
        },
        VideoData::Episode(ep, _) => TagDictV {
            title: ep.series.title@,
            date_released: spec_decimal(ep.series.release_year as int),
            comment: Seq::empty(),
            imdb: match ep.imdb_id {
                Some(id) => id@,
                None => Seq::empty(),
            },
            episode: spec_decimal(ep.episode as int),
            season: spec_decimal(ep.season as int),
        },
    }
}

/// Finds the start of a path's file name part.
fn basename_start(path: &str) -> (r: usize)
    ensures
        r <= path@.len(),
        basename(path@) =~= path@.skip(r as int),
        forall|i: int| r <= i < path@.len() ==> path@[i] != '/',
{
    let n = path.unicode_len();
    let mut j: usize = n;
    while j > 0
        invariant
            0 <= j <= n,
            n == path@.len(),
            forall|i: int| j <= i < n ==> path@[i] != '/',
        ensures
            0 <= j <= n,
            n == path@.len(),
            forall|i: int| j <= i < n ==> path@[i] != '/',
            j == 0 || path@[j - 1] == '/',
        decreases j,
    {
        if path.get_char(j - 1) == '/' {
            break ;
        }
        j -= 1;
    }
    proof {
        lemma_basename_chars(path@, j as int);
    }
    j
}

/// Characterizes the file name part: it is the suffix after the last `/`.
proof fn lemma_basename_chars(p: Seq<char>, j: int)
    requires
        0 <= j <= p.len(),
        forall|i: int| j <= i < p.len() ==> p[i] != '/',
        j == 0 || p[j - 1] == '/',
    ensures
        basename(p) =~= p.skip(j),
    decreases p.len(),
{
    if j < p.len() {
        assert(p.last() != '/');
        lemma_basename_chars(p.drop_last(), j);
        assert(p.drop_last().skip(j).push(p.last()) =~= p.skip(j));
    } else {
        if p.len() > 0 {
            assert(p.last() == p[j - 1]);
        }
    }
}

impl Video {
    /// Builds a video descriptor from a path: the file name is decomposed
    /// by the filename parser; the container's own metadata is used when
    /// the caller extracted some, and is synthesized from the quality hint
    /// otherwise. Fails exactly when the path's file name part is empty.
    pub fn from_path(path: String, file_type: FileType, container: Option<Metadata>) -> (r: Result<
        Video,
        NameError,
    >)
        ensures
            basename(path@).len() == 0 <==> r == Err::<Video, NameError>(NameError::NotAFile),
            r matches Ok(v) ==> ({
                let toks = split_tokens(basename(path@));
                let body = toks.drop_last();
                let st = scan_upto(body, body.len() as int);
                let q = st.quality.unwrap_or(0);
                &&& v.path@ == path@
                &&& v.file_type == file_type
                &&& v.file_extension@ == toks.last()
                &&& container matches Some(m) ==> vd_meta(v.info) == m
                &&& container is None ==> vd_meta(v.info) == spec_synth_meta(q as int)
                &&& st.episode is None ==> (v.info matches VideoData::Movie(ent, _)
                    && ent.title@ == join_spaces(body.take(st.title_end)) && ent.release_year == 0
                    && ent.imdb_id is None)
                &&& st.episode matches Some(en) ==> (v.info matches VideoData::Episode(ep, _)
                    && ep.episode == en && ep.season == st.season.unwrap_or(1) && ep.imdb_id
                    is None && ep.series.title@ == join_spaces(body.take(st.title_end))
                    && ep.series.release_year == 0 && ep.series.imdb_id is None && (
                    st.ep_title_end - st.title_end > 1 ==> ep.title@ == join_spaces(
                        body.subrange(st.title_end + 1, st.ep_title_end),
                    )) && (st.ep_title_end - st.title_end <= 1 ==> ep.title@.len() == 0))
            }),
    {
        let start = basename_start(path.as_str());
        let n = path.as_str().unicode_len();
        if start == n {
            proof {
                assert(basename(path@).len() == 0);
            }
            return Err(NameError::NotAFile);
        }
        let name = path.as_str().substring_char(start, n);
        proof {
            assert(name@ =~= basename(path@));
        }
        let parsed = parse_file_name(name);
        let metadata: Metadata = match container {
            Some(m) => m,
            None => {
                let q: u64 = match parsed.quality {
                    Some(q) => q,
                    None => 0,
                };
                let w128: u128 = (q as u128) / 9 * 16;
                if w128 <= 0xFFFF_FFFF_FFFF_FFFF {
                    proof {
                        assert((q as u128) / 9 * 16 == (q as int) / 9 * 16) by (nonlinear_arith)
                            requires
                                q <= u64::MAX,
                        ;
                    }
                    Metadata { resolution: (w128 as u64, q), length: None }
                } else {
                    proof {
                        assert((q as u128) / 9 * 16 == (q as int) / 9 * 16) by (nonlinear_arith)
                            requires
                                q <= u64::MAX,
                        ;
                    }
                    Metadata { resolution: (0, 0), length: None }
                }
            },
        };
        let info = match parsed.episode {
            Some(en) => {
                let season: u32 = match parsed.season {
                    Some(sn) => sn,
                    None => 1,
                };
                let episode_title: String = match parsed.episode_title {
                    Some(et) => et,
                    None => String::new(),
                };
                VideoData::Episode(
                    Episode {
                        episode: en,
                        season,
                        title: episode_title,
                        imdb_id: None,
                        series: Entity { title: parsed.title, release_year: 0, imdb_id: None },
                    },
                    metadata,
                )
            },
            None => VideoData::Movie(
                Entity { title: parsed.title, release_year: 0, imdb_id: None },
                metadata,
            ),
        };
        Ok(Video { path, file_type, file_extension: parsed.extension, info })
    }

    /// The canonical file name this video should carry:
    /// `Title-SxxEyy-<tier>p.<ext>` for episodes, `Title-<tier>p.<ext>`
    /// for movies, the season and episode numbers zero-padded to two
    /// digits and the tier taken from the resolution classifier.
    pub fn generate_file_name(&self) -> (r: String)
        ensures
            self.info matches VideoData::Episode(ep, meta) ==> r@ == ep.series.title@ + "-S"@
                + spec_padded2(ep.season as int) + "E"@ + spec_padded2(ep.episode as int) + "-"@
                + spec_decimal(
                crate::spec_classify(meta.resolution.0, meta.resolution.1),
            ) + "p."@ + self.file_extension@,
            self.info matches VideoData::Movie(ent, meta) ==> r@ == ent.title@ + "-"@
                + spec_decimal(
                crate::spec_classify(meta.resolution.0, meta.resolution.1),
            ) + "p."@ + self.file_extension@,
    {
        match &self.info {
            VideoData::Episode(ep, meta) => {
                let mut r = ep.series.title.clone();
                r.append("-S");
                let se = u64_to_string_pad2(ep.season as u64);
                r.append(se.as_str());
                r.append("E");
                let en = u64_to_string_pad2(ep.episode as u64);
                r.append(en.as_str());
                r.append("-");
                let tier = u64_to_string(meta.get_resolution());
                r.append(tier.as_str());
                r.append("p.");
                r.append(self.file_extension.as_str());
                r
            },
            VideoData::Movie(ent, meta) => {
                let mut r = ent.title.clone();
                r.append("-");
                let tier = u64_to_string(meta.get_resolution());
                r.append(tier.as_str());
                r.append("p.");
                r.append(self.file_extension.as_str());
                r
            },
        }
    }

    /// The title the injection engine writes into the container.
    pub fn canonical_title(&self) -> (r: String)
        ensures
            r@ == spec_canonical_title(self.info),
    {
        match &self.info {
            VideoData::Movie(ent, _) => ent.title.clone(),
            VideoData::Episode(ep, _) => ep.title.clone(),
        }
    }

    /// The reserved tag dictionary for this video.
    pub fn tag_dictionary(&self) -> (r: TagDict)
        ensures
            r.deep_view() == spec_tag_dict(self.info),
    {
        match &self.info {
            VideoData::Movie(ent, _) => TagDict {
                title: ent.title.clone(),
                date_released: u64_to_string(ent.release_year as u64),
                comment: String::new(),
                imdb: match &ent.imdb_id {
                    Some(id) => id.clone(),
                    None => String::new(),
                },
                episode: String::new(),
                season: String::new(),
            },
            VideoData::Episode(ep, _) => TagDict {
                title: ep.series.title.clone(),
                date_released: u64_to_string(ep.series.release_year as u64),
                comment: String::new(),
                imdb: match &ep.imdb_id {
                    Some(id) => id.clone(),
                    None => String::new(),
                },
                episode: u64_to_string(ep.episode as u64),
                season: u64_to_string(ep.season as u64),
            },
        }
    }

    /// Rewrites a container's tag sequence for this video: the canonical
    /// title placed inside `Info` and the reserved tags merged into
    /// `Tags`, everything else preserved in order.
    pub fn rewrite_tags(&self, src: Vec<Element>) -> (out: Vec<Element>)
        ensures
            out.deep_view() == spec_inject(
                src.deep_view(),
                spec_canonical_title(self.info),
                spec_tag_dict(self.info),
            ),
    {
        inject(src, self.canonical_title(), self.tag_dictionary())
    }

    /// Folds an identity-lookup result into this video: the whole identity
    /// is replaced on success and left untouched on failure, never partly
    /// overwritten. The lookup result must be of the same kind as the
    /// current identity.
    pub fn update_from_imdb(&mut self, entity: &LookupResult) -> (r: Result<(), IdentityError>)
        requires
            old(self).info is Movie <==> entity is Movie,
        ensures
            final(self).path == old(self).path,
            final(self).file_type == old(self).file_type,
            final(self).file_extension == old(self).file_extension,
            vd_meta(final(self).info) == vd_meta(old(self).info),
            entity matches LookupResult::Movie(m) ==> ({
                &&& r == Ok::<(), IdentityError>(())
                &&& final(self).info matches VideoData::Movie(ent, _) && ent.title@
                    == m.title.title@ && ent.release_year == m.title.start_year.unwrap_or(0) && (
                ent.imdb_id matches Some(id) && id@ == m.title.id@)
            }),
            entity matches LookupResult::Episode(em, sm) ==> ({
                &&& em.episode is None ==> r == Err::<(), IdentityError>(
                    IdentityError::NoEpisodeData,
                ) && final(self).info == old(self).info
                &&& em.episode matches Some(info) ==> ({
                    &&& info.episode is None ==> r == Err::<(), IdentityError>(
                        IdentityError::NoEpisodeNumber,
                    ) && final(self).info == old(self).info
                    &&& info.episode is Some && info.season is None ==> r == Err::<
                        (),
                        IdentityError,
                    >(IdentityError::NoSeasonNumber) && final(self).info == old(self).info
                    &&& info.episode matches Some(en) ==> info.season matches Some(sn) ==> ({
                        &&& r == Ok::<(), IdentityError>(())
                        &&& final(self).info matches VideoData::Episode(ep2, _) && ep2.episode
                            == en && ep2.season == sn && ep2.title@ == em.title.title@ && (
                        ep2.imdb_id matches Some(id) && id@ == info.id@) && ep2.series.title@
                            == sm.title.title@ && ep2.series.release_year
                            == sm.title.start_year.unwrap_or(0)
                    })
                })
            }),
    {
        match entity {
            LookupResult::Movie(m) => {
                let meta = match &self.info {
                    VideoData::Movie(_, meta) => *meta,
                    VideoData::Episode(_, meta) => *meta,
                };
                self.info = VideoData::Movie(Entity::from_lookup(&m.title), meta);
                Ok(())
            },
            LookupResult::Episode(em, sm) => {
                let meta = match &self.info {
                    VideoData::Movie(_, meta) => *meta,
                    VideoData::Episode(_, meta) => *meta,
                };
                match Episode::from_lookup(em, sm) {
                    Ok(ep) => {
                        self.info = VideoData::Episode(ep, meta);
                        Ok(())
                    },
                    Err(e) => Err(e),
                }
            },
        }
    }
}

} // verus!
