//! Parsing media playlists (i.e. not master playlists).
//!
//! The entire behaviour of the parser is captured by [`spec_parse`], a
//! specification-level function from the document's characters to either a
//! [`PlaylistModel`] or a [`ParseError`]. The executable entry point
//! [`MediaPlaylist::parse_ext_m3u`] is proved to return exactly that value.

use vstd::prelude::*;
use vstd::string::StrSliceExecFns;

use crate::duration::Duration;
use crate::numbers::{parse_seconds, parse_u64, spec_parse_seconds, spec_parse_u64};
use crate::text::{
    before_comma, count_prefixed, find_char, first_prefixed, has_prefix, lemma_first_prefixed_is,
    spec_lines, split_lines, str_eq, str_starts_with,
};

verus! {

/// The tag a [`ParseError`] complains about.
#[derive(Debug, Clone, Copy, PartialEq, Eq, Structural)]
pub enum TagKind {
    Version,
    Duration,
    SegmentInfo,
}

/// Why a document failed to parse. Every failure is terminal: no partial
/// playlist is ever produced.
#[derive(Debug, Clone, Copy, PartialEq, Eq, Structural)]
pub enum ParseError {
    /// The input has no lines at all.
    EmptyInput,
    /// The first line is not exactly the `#EXTM3U` header.
    MissingHeader,
    /// The version or target-duration tag occurs more than once.
    DuplicateTag(TagKind),
    /// A recognized tag's payload does not parse as its numeric type.
    MalformedTag(TagKind),
    /// The mandatory target-duration tag is absent.
    MissingRequiredTag(TagKind),
}

/// A media segment: one playable unit of the presentation.
#[derive(Debug, Clone, PartialEq, Eq)]
pub struct MediaSegment {
    /// From the `#EXTINF` tag. See RFC 8216, section 4.3.2.1.
    pub duration: Duration,
    /// Relative URL of the media segment, taken verbatim from the line
    /// after its `#EXTINF` tag. See RFC 8216, sections 4.3.2 and 4.1.
    pub url: String,
}

/// Storage for HLS media playlist data, constructed from `ext-m3u` text by
/// [`MediaPlaylist::parse_ext_m3u`].
#[derive(Debug, Clone, PartialEq)]
pub struct MediaPlaylist {
    /// Whether an `#EXT-X-ENDLIST` tag was found. See RFC 8216, section
    /// 4.3.3.4.
    pub ended: bool,
    /// The segments, in order of appearance in the source text.
    pub segments: Vec<MediaSegment>,
    /// Duration that no media segment may exceed. See RFC 8216, section
    /// 4.3.3.1.
    pub target_duration: Duration,
    /// Version of the playlist, for compatibility. See RFC 8216, section
    /// 4.3.1.2.
    pub version: u64,
}

/// Mathematical model of a [`MediaSegment`].
pub ghost struct SegmentModel {
    pub duration: Duration,
    pub url: Seq<char>,
}

/// Mathematical model of a [`MediaPlaylist`].
pub ghost struct PlaylistModel {
    pub ended: bool,
    pub segments: Seq<SegmentModel>,
    pub target_duration: Duration,
    pub version: u64,
}

impl View for MediaSegment {
    type V = SegmentModel;

    open spec fn view(&self) -> SegmentModel {
        SegmentModel { duration: self.duration, url: self.url@ }
    }
}

impl View for MediaPlaylist {
    type V = PlaylistModel;

    open spec fn view(&self) -> PlaylistModel {
        PlaylistModel {
            ended: self.ended,
            segments: self.segments@.map_values(|s: MediaSegment| s@),
            target_duration: self.target_duration,
            version: self.version,
        }
    }
}

// RFC 8216, section 4 tag constants.
pub open spec fn header_tag() -> Seq<char> {
    "#EXTM3U"@
}

pub open spec fn version_tag() -> Seq<char> {
    "#EXT-X-VERSION"@
}

pub open spec fn version_pre() -> Seq<char> {
    "#EXT-X-VERSION:"@
}

pub open spec fn endlist_tag() -> Seq<char> {
    "#EXT-X-ENDLIST"@
}

pub open spec fn duration_tag() -> Seq<char> {
    "#EXT-X-TARGETDURATION"@
}

pub open spec fn duration_pre() -> Seq<char> {
    "#EXT-X-TARGETDURATION:"@
}

pub open spec fn segment_tag() -> Seq<char> {
    "#EXTINF"@
}

pub open spec fn segment_pre() -> Seq<char> {
    "#EXTINF:"@
}

pub open spec fn byterange_tag() -> Seq<char> {
    "#EXT-X-BYTERANGE"@
}

/// Resolution of the optional version tag: more than one occurrence is a
/// duplicate-tag failure; one occurrence must carry `:` and an unsigned
/// integer; none means version 0.
pub open spec fn spec_version(lines: Seq<Seq<char>>) -> Result<u64, ParseError> {
    if count_prefixed(lines, version_tag()) > 1 {
        Err(ParseError::DuplicateTag(TagKind::Version))
    } else {
        let k = first_prefixed(lines, version_tag());
        if k < lines.len() {
            let l = lines[k];
            if has_prefix(l, version_pre()) {
                match spec_parse_u64(l.skip(version_pre().len() as int)) {
                    Some(v) => Ok(v),
                    None => Err(ParseError::MalformedTag(TagKind::Version)),
                }
            } else {
                Err(ParseError::MalformedTag(TagKind::Version))
            }
        } else {
            Ok(0)
        }
    }
}

/// Resolution of the mandatory target-duration tag: more than one
/// occurrence is a duplicate-tag failure; none at all is a
/// missing-required-tag failure; one occurrence must carry `:` and an
/// unsigned whole-second count.
pub open spec fn spec_target(lines: Seq<Seq<char>>) -> Result<Duration, ParseError> {
    if count_prefixed(lines, duration_tag()) > 1 {
        Err(ParseError::DuplicateTag(TagKind::Duration))
    } else {
        let k = first_prefixed(lines, duration_tag());
        if k < lines.len() {
            let l = lines[k];
            if has_prefix(l, duration_pre()) {
                match spec_parse_u64(l.skip(duration_pre().len() as int)) {
                    Some(v) => Ok(Duration { secs: v, nanos: 0u32 }),
                    None => Err(ParseError::MalformedTag(TagKind::Duration)),
                }
            } else {
                Err(ParseError::MalformedTag(TagKind::Duration))
            }
        } else {
            Err(ParseError::MissingRequiredTag(TagKind::Duration))
        }
    }
}

/// The segment-collection pass from line `i` on, with its running state: a
/// segment-info tag leaves a duration pending (one without `:` keeps the
/// previous pending value), byte-range lines and the end-of-list line are
/// skipped, and any other line while a duration is pending becomes a
/// segment's URL.
pub open spec fn spec_collect(
    lines: Seq<Seq<char>>,
    i: int,
    pending: bool,
    dur: Duration,
    acc: Seq<SegmentModel>,
) -> Result<Seq<SegmentModel>, ParseError>
    decreases lines.len() - i,
{
    if i < 0 || i >= lines.len() {
        Ok(acc)
    } else {
        let l = lines[i];
        if has_prefix(l, segment_tag()) {
            if has_prefix(l, segment_pre()) {
                match spec_parse_seconds(before_comma(l.skip(segment_pre().len() as int))) {
                    Some(d) => spec_collect(lines, i + 1, true, d, acc),
                    None => Err(ParseError::MalformedTag(TagKind::SegmentInfo)),
                }
            } else {
                spec_collect(lines, i + 1, true, dur, acc)
            }
        } else if has_prefix(l, byterange_tag()) {
            spec_collect(lines, i + 1, pending, dur, acc)
        } else if l == endlist_tag() {
            spec_collect(lines, i + 1, pending, dur, acc)
        } else if pending {
            spec_collect(lines, i + 1, false, dur, acc.push(SegmentModel { duration: dur, url: l }))
        } else {
            spec_collect(lines, i + 1, pending, dur, acc)
        }
    }
}

/// Some line is exactly the end-of-list tag.
pub open spec fn has_endlist(lines: Seq<Seq<char>>) -> bool {
    exists|i: int| 0 <= i < lines.len() && lines[i] == endlist_tag()
}

/// What parsing a whole document yields: the playlist model, or the first
/// failure in the order empty-input, header, version, target duration,
/// segment collection.
pub open spec fn spec_parse(text: Seq<char>) -> Result<PlaylistModel, ParseError> {
    let lines = spec_lines(text);
    if lines.len() == 0 {
        Err(ParseError::EmptyInput)
    } else if lines[0] != header_tag() {
        Err(ParseError::MissingHeader)
    } else {
        match spec_version(lines) {
            Err(e) => Err(e),
            Ok(v) => match spec_target(lines) {
                Err(e) => Err(e),
                Ok(td) => match spec_collect(
                    lines,
                    0,
                    false,
                    Duration { secs: 0u64, nanos: 0u32 },
                    Seq::empty(),
                ) {
                    Err(e) => Err(e),
                    Ok(segs) => Ok(
                        PlaylistModel {
                            ended: has_endlist(lines),
                            segments: segs,
                            target_duration: td,
                            version: v,
                        },
                    ),
                },
            },
        }
    }
}

/// Counts the lines beginning with `tag` and finds the first of them,
/// proved against [`count_prefixed`] and [`first_prefixed`].
fn scan_prefixed(lines: &Vec<&str>, tag: &str) -> (r: (usize, usize))
    ensures
        r.0 == count_prefixed(lines@.map_values(|l: &str| l@), tag@),
        r.1 == first_prefixed(lines@.map_values(|l: &str| l@), tag@),
{
    let ghost views = lines@.map_values(|l: &str| l@);
    let n = lines.len();
    let mut count: usize = 0;
    let mut first: usize = n;
    let mut i: usize = 0;
    while i < n
        invariant
            0 <= i <= n,
            n == lines@.len(),
            views == lines@.map_values(|l: &str| l@),
            count <= i,
            count == count_prefixed(views.take(i as int), tag@),
            count == 0 ==> first == n && (forall|j: int|
                0 <= j < i ==> !has_prefix(views[j], tag@)),
            count > 0 ==> first < i && has_prefix(views[first as int], tag@) && (forall|j: int|
                0 <= j < first ==> !has_prefix(views[j], tag@)),
        decreases n - i,
    {
        let m = str_starts_with(lines[i], tag);
        proof {
            assert(views.take(i + 1).drop_last() =~= views.take(i as int));
            assert(views.take(i + 1).last() == views[i as int]);
            assert(views[i as int] == lines@[i as int]@);
        }
        if m {
            if count == 0 {
                first = i;
            }
            count += 1;
        }
        i += 1;
    }
    proof {
        assert(views.take(n as int) =~= views);
        if count == 0 {
            lemma_first_prefixed_is(views, tag@, n as int);
        } else {
            lemma_first_prefixed_is(views, tag@, first as int);
        }
    }
    (count, first)
}

/// Whether some line is exactly the end-of-list tag, proved against
/// [`has_endlist`].
fn has_endlist_line(lines: &Vec<&str>) -> (r: bool)
    ensures
        r == has_endlist(lines@.map_values(|l: &str| l@)),
{
    let ghost views = lines@.map_values(|l: &str| l@);
    let n = lines.len();
    let mut i: usize = 0;
    while i < n
        invariant
            0 <= i <= n,
            n == lines@.len(),
            views == lines@.map_values(|l: &str| l@),
            forall|j: int| 0 <= j < i ==> views[j] != endlist_tag(),
        decreases n - i,
    {
        let m = str_eq(lines[i], "#EXT-X-ENDLIST");
        proof {
            assert(views[i as int] == lines@[i as int]@);
        }
        if m {
            proof {
                assert(views[i as int] == endlist_tag());
            }
            return true;
        }
        i += 1;
    }
    proof {
        assert(!has_endlist(views)) by {
            assert(forall|j: int| 0 <= j < views.len() ==> views[j] != endlist_tag());
        }
    }
    false
}

impl MediaPlaylist {
    /// Parses the given document into a [`MediaPlaylist`], returning an
    /// error if it does not adhere to the specification. The result is
    /// proved equal to [`spec_parse`] of the document's characters.
    #[verifier::loop_isolation(false)]
    pub fn parse_ext_m3u(file: &str) -> (r: Result<MediaPlaylist, ParseError>)
        ensures
            match r {
                Ok(p) => spec_parse(file@) == Ok::<PlaylistModel, ParseError>(p@),
                Err(e) => spec_parse(file@) == Err::<PlaylistModel, ParseError>(e),
            },
    {
        let lines = split_lines(file);
        let ghost lv = spec_lines(file@);
        proof {
            assert(lv == lines@.map_values(|l: &str| l@));
        }

        // The input must contain data at all.
        if lines.len() == 0 {
            return Err(ParseError::EmptyInput);
        }

        // RFC 8216, section 4.3.1.1: the document starts with the header tag.
        let header_ok = str_eq(lines[0], "#EXTM3U");
        proof {
            assert(lv[0] == lines@[0]@);
        }
        if !header_ok {
            return Err(ParseError::MissingHeader);
        }

        // RFC 8216, section 4.3.1.2: at most one version tag.
        let (vc, vk) = scan_prefixed(&lines, "#EXT-X-VERSION");
        if vc > 1 {
            return Err(ParseError::DuplicateTag(TagKind::Version));
        }
        let mut version: u64 = 0;
        if vk < lines.len() {
            let l = lines[vk];
            proof {
                assert(lv[vk as int] == l@);
            }
            if !str_starts_with(l, "#EXT-X-VERSION:") {
                return Err(ParseError::MalformedTag(TagKind::Version));
            }
            let plen = ("#EXT-X-VERSION:").unicode_len();
            let rest = l.substring_char(plen, l.unicode_len());
            proof {
                assert(rest@ =~= l@.skip(version_pre().len() as int));
            }
            match parse_u64(rest) {
                Some(v) => {
                    version = v;
                },
                None => {
                    return Err(ParseError::MalformedTag(TagKind::Version));
                },
            }
        }
        proof {
            assert(spec_version(lv) == Ok::<u64, ParseError>(version));
        }

        // RFC 8216, section 4.3.3.1: exactly one target-duration tag.
        let (dc, dk) = scan_prefixed(&lines, "#EXT-X-TARGETDURATION");
        if dc > 1 {
            return Err(ParseError::DuplicateTag(TagKind::Duration));
        }
        if dk >= lines.len() {
            return Err(ParseError::MissingRequiredTag(TagKind::Duration));
        }
        let target: Duration;
        let dl = lines[dk];
        proof {
            assert(lv[dk as int] == dl@);
        }
        if !str_starts_with(dl, "#EXT-X-TARGETDURATION:") {
            return Err(ParseError::MalformedTag(TagKind::Duration));
        }
        let plen = ("#EXT-X-TARGETDURATION:").unicode_len();
        let rest = dl.substring_char(plen, dl.unicode_len());
        proof {
            assert(rest@ =~= dl@.skip(duration_pre().len() as int));
        }
        match parse_u64(rest) {
            Some(v) => {
                target = Duration::from_secs(v);
            },
            None => {
                return Err(ParseError::MalformedTag(TagKind::Duration));
            },
        }
        proof {
            assert(spec_target(lv) == Ok::<Duration, ParseError>(target));
        }

        // RFC 8216, section 4.3.2: collect the segments in one stateful pass.
        let mut segments: Vec<MediaSegment> = Vec::new();
        let mut pending: bool = false;
        let mut dur = Duration::from_secs(0);
        let mut i: usize = 0;
        proof {
            assert(segments@.map_values(|s: MediaSegment| s@) =~= Seq::<SegmentModel>::empty());
        }
        while i < lines.len()
            invariant
                0 <= i <= lines@.len(),
                spec_collect(lv, 0, false, Duration { secs: 0u64, nanos: 0u32 }, Seq::empty())
                    == spec_collect(
                    lv,
                    i as int,
                    pending,
                    dur,
                    segments@.map_values(|s: MediaSegment| s@),
                ),
            decreases lines@.len() - i,
        {
            let ghost pend0 = pending;
            let ghost dur0 = dur;
            let ghost segs0 = segments@.map_values(|s: MediaSegment| s@);
            let l = lines[i];
            proof {
                assert(lv[i as int] == l@);
            }
            if str_starts_with(l, "#EXTINF") {
                pending = true;
                if str_starts_with(l, "#EXTINF:") {
                    let plen = ("#EXTINF:").unicode_len();
                    let rest = l.substring_char(plen, l.unicode_len());
                    proof {
                        assert(rest@ =~= l@.skip(segment_pre().len() as int));
                    }
                    let cut = find_char(rest, ',');
                    let payload = rest.substring_char(0, cut);
                    proof {
                        assert(payload@ =~= before_comma(rest@));
                    }
                    match parse_seconds(payload) {
                        Some(d) => {
                            dur = d;
                        },
                        None => {
                            return Err(ParseError::MalformedTag(TagKind::SegmentInfo));
                        },
                    }
                }
            } else if str_starts_with(l, "#EXT-X-BYTERANGE") {
                // Recognized but ignored.
            } else if str_eq(l, "#EXT-X-ENDLIST") {
                // Recorded separately, after this pass.
            } else if pending {
                segments.push(MediaSegment { duration: dur, url: l.to_owned() });
                pending = false;
                proof {
                    assert(segments@.map_values(|s: MediaSegment| s@) =~= segs0.push(
                        SegmentModel { duration: dur, url: l@ },
                    ));
                }
            }
            i += 1;
        }
        let ghost segs = segments@.map_values(|s: MediaSegment| s@);
        proof {
            assert(spec_collect(lv, lines@.len() as int, pending, dur, segs) == Ok::<
                Seq<SegmentModel>,
                ParseError,
            >(segs));
        }

        // RFC 8216, section 4.3.3.4: the end-of-list tag may stand anywhere.
        let ended = has_endlist_line(&lines);

        let result = MediaPlaylist { ended, segments, target_duration: target, version };
        proof {
            assert(result@.segments == segs);
            assert(spec_parse(file@) == Ok::<PlaylistModel, ParseError>(result@));
        }
        Ok(result)
    }
}

} // verus!
