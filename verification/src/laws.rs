//! General properties of the parser, each proved once and for all inputs.
//!
//! Every lemma here is stated over [`spec_parse`] and the other public
//! specification functions, which [`MediaPlaylist::parse_ext_m3u`]'s
//! contract ties to the executable parser: what holds of `spec_parse`
//! holds of every call.
//!
//! [`MediaPlaylist::parse_ext_m3u`]: crate::MediaPlaylist::parse_ext_m3u

use vstd::prelude::*;

use crate::duration::Duration;
use crate::media_playlist::{
    byterange_tag, duration_tag, endlist_tag, has_endlist, header_tag, segment_pre, segment_tag,
    spec_collect, spec_parse, spec_target, spec_version, version_tag, ParseError, PlaylistModel,
    SegmentModel, TagKind,
};
use crate::numbers::spec_parse_seconds;
use crate::text::{
    before_comma, has_prefix, lemma_count_prefixed_two, lemma_count_prefixed_zero,
    lemma_first_prefixed_is, lemma_prefix_trans, spec_lines,
};

verus! {

/// How many segment URLs the collection pass gathers from line `i`
/// onward: one for each segment-info tag that is followed — ignoring
/// byte-range and end-of-list lines — by some other line.
pub open spec fn collectable_url_count(lines: Seq<Seq<char>>, i: int, pending: bool) -> int
    decreases lines.len() - i,
{
    if i < 0 || i >= lines.len() {
        0
    } else {
        let l = lines[i];
        if has_prefix(l, segment_tag()) {
            collectable_url_count(lines, i + 1, true)
        } else if has_prefix(l, byterange_tag()) {
            collectable_url_count(lines, i + 1, pending)
        } else if l == endlist_tag() {
            collectable_url_count(lines, i + 1, pending)
        } else if pending {
            1 + collectable_url_count(lines, i + 1, false)
        } else {
            collectable_url_count(lines, i + 1, pending)
        }
    }
}

/// Every segment-info payload among `lines` parses as a decimal seconds
/// value.
pub open spec fn all_segment_infos_parse(lines: Seq<Seq<char>>) -> bool {
    forall|i: int|
        #![trigger lines[i]]
        0 <= i < lines.len() && has_prefix(lines[i], segment_pre())
            ==> spec_parse_seconds(before_comma(lines[i].skip(segment_pre().len() as int))) is Some
}

/// The whole segment-info tag prefix extends the bare tag.
proof fn lemma_segment_pre_extends_tag()
    ensures
        has_prefix(segment_pre(), segment_tag()),
{
    reveal_strlit("#EXTINF:");
    reveal_strlit("#EXTINF");
    assert(segment_pre().subrange(0, segment_tag().len() as int) =~= segment_tag());
}

/// When every segment-info payload parses, the collection pass cannot
/// fail.
proof fn lemma_collect_ok(
    lines: Seq<Seq<char>>,
    i: int,
    pending: bool,
    dur: Duration,
    acc: Seq<SegmentModel>,
)
    requires
        all_segment_infos_parse(lines),
    ensures
        spec_collect(lines, i, pending, dur, acc) is Ok,
    decreases lines.len() - i,
{
    if 0 <= i < lines.len() {
        let l = lines[i];
        if has_prefix(l, segment_tag()) {
            if has_prefix(l, segment_pre()) {
                let parsed = spec_parse_seconds(before_comma(l.skip(segment_pre().len() as int)));
                assert(parsed is Some);
                lemma_collect_ok(lines, i + 1, true, parsed->0, acc);
            } else {
                lemma_collect_ok(lines, i + 1, true, dur, acc);
            }
        } else if has_prefix(l, byterange_tag()) {
            lemma_collect_ok(lines, i + 1, pending, dur, acc);
        } else if l == endlist_tag() {
            lemma_collect_ok(lines, i + 1, pending, dur, acc);
        } else if pending {
            lemma_collect_ok(
                lines,
                i + 1,
                false,
                dur,
                acc.push(SegmentModel { duration: dur, url: l }),
            );
        } else {
            lemma_collect_ok(lines, i + 1, pending, dur, acc);
        }
    }
}

/// A successful collection pass gathers exactly one segment for each
/// collectable URL, on top of what it started with.
proof fn lemma_collect_len(
    lines: Seq<Seq<char>>,
    i: int,
    pending: bool,
    dur: Duration,
    acc: Seq<SegmentModel>,
)
    requires
        spec_collect(lines, i, pending, dur, acc) is Ok,
    ensures
        spec_collect(lines, i, pending, dur, acc)->Ok_0.len() == acc.len()
            + collectable_url_count(lines, i, pending),
    decreases lines.len() - i,
{
    if 0 <= i < lines.len() {
        let l = lines[i];
        if has_prefix(l, segment_tag()) {
            if has_prefix(l, segment_pre()) {
                let parsed = spec_parse_seconds(before_comma(l.skip(segment_pre().len() as int)));
                lemma_collect_len(lines, i + 1, true, parsed->0, acc);
            } else {
                lemma_collect_len(lines, i + 1, true, dur, acc);
            }
        } else if has_prefix(l, byterange_tag()) {
            lemma_collect_len(lines, i + 1, pending, dur, acc);
        } else if l == endlist_tag() {
            lemma_collect_len(lines, i + 1, pending, dur, acc);
        } else if pending {
            lemma_collect_len(
                lines,
                i + 1,
                false,
                dur,
                acc.push(SegmentModel { duration: dur, url: l }),
            );
        } else {
            lemma_collect_len(lines, i + 1, pending, dur, acc);
        }
    }
}

/// A segment-info line whose payload does not parse makes the collection
/// pass fail with the segment-info malformed-tag error, whatever else the
/// lines hold.
proof fn lemma_collect_err(
    lines: Seq<Seq<char>>,
    k: int,
    pending: bool,
    dur: Duration,
    acc: Seq<SegmentModel>,
    i: int,
)
    requires
        0 <= k <= i < lines.len(),
        has_prefix(lines[i], segment_pre()),
        spec_parse_seconds(before_comma(lines[i].skip(segment_pre().len() as int))) is None,
    ensures
        spec_collect(lines, k, pending, dur, acc) == Err::<Seq<SegmentModel>, ParseError>(
            ParseError::MalformedTag(TagKind::SegmentInfo),
        ),
    decreases i - k,
{
    let l = lines[k];
    if k == i {
        lemma_segment_pre_extends_tag();
        lemma_prefix_trans(l, segment_pre(), segment_tag());
    } else {
        if has_prefix(l, segment_tag()) {
            if has_prefix(l, segment_pre()) {
                let parsed = spec_parse_seconds(before_comma(l.skip(segment_pre().len() as int)));
                if parsed is Some {
                    lemma_collect_err(lines, k + 1, true, parsed->0, acc, i);
                }
            } else {
                lemma_collect_err(lines, k + 1, true, dur, acc, i);
            }
        } else if has_prefix(l, byterange_tag()) {
            lemma_collect_err(lines, k + 1, pending, dur, acc, i);
        } else if l == endlist_tag() {
            lemma_collect_err(lines, k + 1, pending, dur, acc, i);
        } else if pending {
            lemma_collect_err(
                lines,
                k + 1,
                false,
                dur,
                acc.push(SegmentModel { duration: dur, url: l }),
                i,
            );
        } else {
            lemma_collect_err(lines, k + 1, pending, dur, acc, i);
        }
    }
}

/// On a valid input — header first, version and target-duration tags
/// resolving, every segment-info payload parsing — the parse succeeds,
/// and yields one segment for each segment-info tag that is followed
/// (ignoring byte-range and end-of-list lines) by a genuine URL line.
pub proof fn lemma_valid_input_parses(text: Seq<char>)
    requires
        spec_lines(text).len() > 0,
        spec_lines(text)[0] == header_tag(),
        spec_version(spec_lines(text)) is Ok,
        spec_target(spec_lines(text)) is Ok,
        all_segment_infos_parse(spec_lines(text)),
    ensures
        spec_parse(text) is Ok,
        spec_parse(text)->Ok_0.segments.len() == collectable_url_count(spec_lines(text), 0, false),
{
    let lines = spec_lines(text);
    let zero = Duration { secs: 0u64, nanos: 0u32 };
    lemma_collect_ok(lines, 0, false, zero, Seq::empty());
    lemma_collect_len(lines, 0, false, zero, Seq::empty());
}

/// Parsing is deterministic: the same text always yields the same value,
/// so parsing twice gives equal playlists.
pub proof fn lemma_parse_idempotent(
    text: Seq<char>,
    r1: Result<PlaylistModel, ParseError>,
    r2: Result<PlaylistModel, ParseError>,
)
    requires
        r1 == spec_parse(text),
        r2 == spec_parse(text),
    ensures
        r1 == r2,
{
}

/// An absent version tag defaults the version to zero.
pub proof fn lemma_absent_version_defaults_to_zero(text: Seq<char>, m: PlaylistModel)
    requires
        spec_parse(text) == Ok::<PlaylistModel, ParseError>(m),
        forall|i: int|
            0 <= i < spec_lines(text).len() ==> !has_prefix(
                #[trigger] spec_lines(text)[i],
                version_tag(),
            ),
    ensures
        m.version == 0,
{
    let lines = spec_lines(text);
    lemma_count_prefixed_zero(lines, version_tag());
    lemma_first_prefixed_is(lines, version_tag(), lines.len() as int);
}

/// Two version-tag lines make the parse fail with the version
/// duplicate-tag error, regardless of their payloads.
pub proof fn lemma_duplicate_version_tag(text: Seq<char>, i: int, j: int)
    requires
        spec_lines(text).len() > 0,
        spec_lines(text)[0] == header_tag(),
        0 <= i < j < spec_lines(text).len(),
        has_prefix(spec_lines(text)[i], version_tag()),
        has_prefix(spec_lines(text)[j], version_tag()),
    ensures
        spec_parse(text) == Err::<PlaylistModel, ParseError>(
            ParseError::DuplicateTag(TagKind::Version),
        ),
{
    lemma_count_prefixed_two(spec_lines(text), version_tag(), i, j);
}

/// Without a target-duration tag the parse fails with the
/// missing-required-tag error, once the earlier passes are clean.
pub proof fn lemma_missing_target_duration(text: Seq<char>)
    requires
        spec_lines(text).len() > 0,
        spec_lines(text)[0] == header_tag(),
        spec_version(spec_lines(text)) is Ok,
        forall|i: int|
            0 <= i < spec_lines(text).len() ==> !has_prefix(
                #[trigger] spec_lines(text)[i],
                duration_tag(),
            ),
    ensures
        spec_parse(text) == Err::<PlaylistModel, ParseError>(
            ParseError::MissingRequiredTag(TagKind::Duration),
        ),
{
    let lines = spec_lines(text);
    lemma_count_prefixed_zero(lines, duration_tag());
    lemma_first_prefixed_is(lines, duration_tag(), lines.len() as int);
}

/// A parsed playlist is marked ended exactly when some line is the
/// end-of-list tag.
pub proof fn lemma_ended_iff_endlist(text: Seq<char>, m: PlaylistModel)
    requires
        spec_parse(text) == Ok::<PlaylistModel, ParseError>(m),
    ensures
        m.ended <==> exists|i: int|
            0 <= i < spec_lines(text).len() && spec_lines(text)[i] == endlist_tag(),
{
    assert(m.ended == has_endlist(spec_lines(text)));
}

/// A segment-info tag whose payload does not parse as a decimal seconds
/// value makes the parse fail with the segment-info malformed-tag error,
/// once the earlier passes are clean.
pub proof fn lemma_malformed_segment_info(text: Seq<char>, i: int)
    requires
        spec_lines(text).len() > 0,
        spec_lines(text)[0] == header_tag(),
        spec_version(spec_lines(text)) is Ok,
        spec_target(spec_lines(text)) is Ok,
        0 <= i < spec_lines(text).len(),
        has_prefix(spec_lines(text)[i], segment_pre()),
        spec_parse_seconds(
            before_comma(spec_lines(text)[i].skip(segment_pre().len() as int)),
        ) is None,
    ensures
        spec_parse(text) == Err::<PlaylistModel, ParseError>(
            ParseError::MalformedTag(TagKind::SegmentInfo),
        ),
{
    let zero = Duration { secs: 0u64, nanos: 0u32 };
    lemma_collect_err(spec_lines(text), 0, false, zero, Seq::empty(), i);
}

/// Empty input fails with the empty-input error.
pub proof fn lemma_empty_input(text: Seq<char>)
    requires
        text.len() == 0,
    ensures
        spec_parse(text) == Err::<PlaylistModel, ParseError>(ParseError::EmptyInput),
{
}

/// Input whose first line is not the header tag fails with the
/// missing-header error.
pub proof fn lemma_missing_header(text: Seq<char>)
    requires
        spec_lines(text).len() > 0,
        spec_lines(text)[0] != header_tag(),
    ensures
        spec_parse(text) == Err::<PlaylistModel, ParseError>(ParseError::MissingHeader),
{
}

} // verus!
