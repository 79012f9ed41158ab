use hls_parse::{Duration, MediaPlaylist, MediaSegment, ParseError, TagKind};

const BIG_BUCK_BUNNY: &str = "#EXTM3U\n\
#EXT-X-VERSION:4\n\
#EXT-X-ALLOW-CACHE:NO\n\
#EXT-X-TARGETDURATION:20\n\
#EXT-X-MEDIA-SEQUENCE:1\n\
#EXT-X-PROGRAM-DATE-TIME:2015-08-25T01:59:23.708+00:00\n\
#EXTINF:12.166,\n\
#EXT-X-BYTERANGE:1430680@4048392\n\
segment_1440468394459_1440468394459_1.ts\n\
#EXTINF:13.292,\n\
#EXT-X-BYTERANGE:840360@5479072\n\
segment_1440468394459_1440468394459_1.ts\n\
#EXTINF:10.500,\n\
#EXT-X-BYTERANGE:1009184@6319432\n\
segment_1440468394459_1440468394459_1.ts\n\
#EXTINF:11.417,\n\
#EXT-X-BYTERANGE:806332@0\n\
segment_1440468394459_1440468394459_2.ts\n\
#EXTINF:12.459,\n\
#EXT-X-BYTERANGE:701616@806332\n\
segment_1440468394459_1440468394459_2.ts\n\
#EXTINF:14.000,\n\
#EXT-X-BYTERANGE:931352@1507948\n\
segment_1440468394459_1440468394459_2.ts\n\
#EXTINF:19.292,\n\
#EXT-X-BYTERANGE:1593676@2439300\n\
segment_1440468394459_1440468394459_2.ts\n\
#EXTINF:7.834,\n\
#EXT-X-BYTERANGE:657812@4032976\n\
segment_1440468394459_1440468394459_2.ts\n\
#EXT-X-ENDLIST\n";

// Helper because this playlist is valid and should parse correctly.
fn big_buck_bunny() -> MediaPlaylist {
    MediaPlaylist::parse_ext_m3u(BIG_BUCK_BUNNY).expect("Big Buck Bunny should parse")
}

#[test]
fn parses_version() {
    let playlist = big_buck_bunny();
    assert_eq!(playlist.version, 4);
}

#[test]
fn parses_target_duration() {
    let playlist = big_buck_bunny();
    assert_eq!(playlist.target_duration, Duration::from_secs(20));
}

#[test]
fn parses_end_tag() {
    let playlist = big_buck_bunny();
    assert!(playlist.ended);
}

#[test]
fn parses_segments() {
    let playlist = big_buck_bunny();
    let expected = vec![
        MediaSegment {
            duration: Duration::new(12, 166_000_000),
            url: "segment_1440468394459_1440468394459_1.ts".to_string(),
        },
        MediaSegment {
            duration: Duration::new(13, 292_000_000),
            url: "segment_1440468394459_1440468394459_1.ts".to_string(),
        },
        MediaSegment {
            duration: Duration::new(10, 500_000_000),
            url: "segment_1440468394459_1440468394459_1.ts".to_string(),
        },
        MediaSegment {
            duration: Duration::new(11, 417_000_000),
            url: "segment_1440468394459_1440468394459_2.ts".to_string(),
        },
        MediaSegment {
            duration: Duration::new(12, 459_000_000),
            url: "segment_1440468394459_1440468394459_2.ts".to_string(),
        },
        MediaSegment {
            duration: Duration::new(14, 0),
            url: "segment_1440468394459_1440468394459_2.ts".to_string(),
        },
        MediaSegment {
            duration: Duration::new(19, 292_000_000),
            url: "segment_1440468394459_1440468394459_2.ts".to_string(),
        },
        MediaSegment {
            duration: Duration::new(7, 834_000_000),
            url: "segment_1440468394459_1440468394459_2.ts".to_string(),
        },
    ];

    // Slightly easier to read failures if we go one at a time.
    assert_eq!(playlist.segments.len(), expected.len());
    for (actual, expected) in playlist.segments.into_iter().zip(expected) {
        assert_eq!(actual, expected);
    }
}

#[test]
fn nine_segment_playlist() {
    let text = "#EXTM3U\n\
#EXT-X-VERSION:4\n\
#EXT-X-TARGETDURATION:20\n\
#EXTINF:12.166,\n\
#EXT-X-BYTERANGE:1430680@4048392\n\
segment_1440468394459_1440468394459_1.ts\n\
#EXTINF:13.292,\n\
#EXT-X-BYTERANGE:840360@5479072\n\
segment_1440468394459_1440468394459_1.ts\n\
#EXTINF:10.500,\n\
#EXT-X-BYTERANGE:1009184@6319432\n\
segment_1440468394459_1440468394459_1.ts\n\
#EXTINF:11.417,\n\
#EXT-X-BYTERANGE:806332@0\n\
segment_1440468394459_1440468394459_2.ts\n\
#EXTINF:12.459,\n\
#EXT-X-BYTERANGE:701616@806332\n\
segment_1440468394459_1440468394459_2.ts\n\
#EXTINF:14.000,\n\
#EXT-X-BYTERANGE:931352@1507948\n\
segment_1440468394459_1440468394459_2.ts\n\
#EXTINF:19.292,\n\
#EXT-X-BYTERANGE:1593676@2439300\n\
segment_1440468394459_1440468394459_2.ts\n\
#EXTINF:7.834,\n\
#EXT-X-BYTERANGE:657812@4032976\n\
segment_1440468394459_1440468394459_2.ts\n\
#EXTINF:9.000,\n\
#EXT-X-BYTERANGE:100000@0\n\
segment_1440468394459_1440468394459_3.ts\n\
#EXT-X-ENDLIST\n";
    let playlist = MediaPlaylist::parse_ext_m3u(text).expect("playlist should parse");
    assert_eq!(playlist.version, 4);
    assert_eq!(playlist.target_duration, Duration::from_secs(20));
    assert!(playlist.ended);
    assert_eq!(playlist.segments.len(), 9);
    assert_eq!(playlist.segments[0].duration, Duration::new(12, 166_000_000));
    assert_eq!(
        playlist.segments[0].url,
        "segment_1440468394459_1440468394459_1.ts".to_string()
    );
    assert_eq!(playlist.segments[8].duration, Duration::new(9, 0));
    assert_eq!(
        playlist.segments[8].url,
        "segment_1440468394459_1440468394459_3.ts".to_string()
    );
}

#[test]
fn segment_count_matches_info_tags_with_urls() {
    // Three info tags, but the last is never followed by a URL line:
    // two segments come out.
    let text = "#EXTM3U\n\
#EXT-X-TARGETDURATION:10\n\
#EXTINF:5.0,first\n\
a.ts\n\
#EXTINF:6.5,second\n\
#EXT-X-BYTERANGE:1@2\n\
b.ts\n\
#EXTINF:7.0,dangling\n\
#EXT-X-ENDLIST\n";
    let playlist = MediaPlaylist::parse_ext_m3u(text).expect("playlist should parse");
    assert_eq!(playlist.segments.len(), 2);
    assert_eq!(playlist.segments[0].duration, Duration::new(5, 0));
    assert_eq!(playlist.segments[0].url, "a.ts".to_string());
    assert_eq!(playlist.segments[1].duration, Duration::new(6, 500_000_000));
    assert_eq!(playlist.segments[1].url, "b.ts".to_string());
}

#[test]
fn parsing_twice_yields_equal_playlists() {
    let first = MediaPlaylist::parse_ext_m3u(BIG_BUCK_BUNNY).expect("should parse");
    let second = MediaPlaylist::parse_ext_m3u(BIG_BUCK_BUNNY).expect("should parse");
    assert_eq!(first, second);
}

#[test]
fn absent_version_defaults_to_zero() {
    let text = "#EXTM3U\n#EXT-X-TARGETDURATION:10\n#EXTINF:5.0,\na.ts\n";
    let playlist = MediaPlaylist::parse_ext_m3u(text).expect("playlist should parse");
    assert_eq!(playlist.version, 0);
}

#[test]
fn duplicate_version_tags_rejected() {
    let text = "#EXTM3U\n\
#EXT-X-VERSION:3\n\
#EXT-X-VERSION:3\n\
#EXT-X-TARGETDURATION:10\n";
    let err = MediaPlaylist::parse_ext_m3u(text).unwrap_err();
    assert_eq!(err, ParseError::DuplicateTag(TagKind::Version));
}

#[test]
fn duplicate_version_tags_rejected_whatever_their_values() {
    let text = "#EXTM3U\n\
#EXT-X-VERSION:1\n\
#EXT-X-VERSION:2\n\
#EXT-X-TARGETDURATION:10\n";
    let err = MediaPlaylist::parse_ext_m3u(text).unwrap_err();
    assert_eq!(err, ParseError::DuplicateTag(TagKind::Version));
}

#[test]
fn duplicate_duration_tags_rejected() {
    let text = "#EXTM3U\n\
#EXT-X-TARGETDURATION:10\n\
#EXT-X-TARGETDURATION:10\n";
    let err = MediaPlaylist::parse_ext_m3u(text).unwrap_err();
    assert_eq!(err, ParseError::DuplicateTag(TagKind::Duration));
}

#[test]
fn missing_target_duration_rejected() {
    let text = "#EXTM3U\n#EXT-X-VERSION:3\n#EXTINF:5.0,\na.ts\n";
    let err = MediaPlaylist::parse_ext_m3u(text).unwrap_err();
    assert_eq!(err, ParseError::MissingRequiredTag(TagKind::Duration));
}

#[test]
fn endlist_anywhere_marks_ended() {
    let text = "#EXTM3U\n\
#EXT-X-ENDLIST\n\
#EXT-X-TARGETDURATION:10\n\
#EXTINF:5.0,\n\
a.ts\n";
    let playlist = MediaPlaylist::parse_ext_m3u(text).expect("playlist should parse");
    assert!(playlist.ended);
    assert_eq!(playlist.segments.len(), 1);
}

#[test]
fn absent_endlist_not_ended() {
    let text = "#EXTM3U\n#EXT-X-TARGETDURATION:10\n#EXTINF:5.0,\na.ts\n";
    let playlist = MediaPlaylist::parse_ext_m3u(text).expect("playlist should parse");
    assert!(!playlist.ended);
}

#[test]
fn non_numeric_segment_duration_rejected() {
    let text = "#EXTM3U\n#EXT-X-TARGETDURATION:10\n#EXTINF:abc,\na.ts\n";
    let err = MediaPlaylist::parse_ext_m3u(text).unwrap_err();
    assert_eq!(err, ParseError::MalformedTag(TagKind::SegmentInfo));
}

#[test]
fn empty_input_rejected() {
    let err = MediaPlaylist::parse_ext_m3u("").unwrap_err();
    assert_eq!(err, ParseError::EmptyInput);
}

#[test]
fn input_without_header_rejected() {
    let err = MediaPlaylist::parse_ext_m3u("#EXT-X-TARGETDURATION:10\n").unwrap_err();
    assert_eq!(err, ParseError::MissingHeader);
}

#[test]
fn blank_first_line_rejected() {
    let err = MediaPlaylist::parse_ext_m3u("\n#EXTM3U\n").unwrap_err();
    assert_eq!(err, ParseError::MissingHeader);
}

#[test]
fn non_numeric_version_rejected() {
    let text = "#EXTM3U\n#EXT-X-VERSION:abc\n#EXT-X-TARGETDURATION:10\n";
    let err = MediaPlaylist::parse_ext_m3u(text).unwrap_err();
    assert_eq!(err, ParseError::MalformedTag(TagKind::Version));
}

#[test]
fn version_tag_without_colon_rejected() {
    let text = "#EXTM3U\n#EXT-X-VERSION_4\n#EXT-X-TARGETDURATION:10\n";
    let err = MediaPlaylist::parse_ext_m3u(text).unwrap_err();
    assert_eq!(err, ParseError::MalformedTag(TagKind::Version));
}

#[test]
fn oversized_version_rejected() {
    // One past u64::MAX.
    let text = "#EXTM3U\n#EXT-X-VERSION:18446744073709551616\n#EXT-X-TARGETDURATION:10\n";
    let err = MediaPlaylist::parse_ext_m3u(text).unwrap_err();
    assert_eq!(err, ParseError::MalformedTag(TagKind::Version));
}

#[test]
fn largest_version_accepted() {
    let text = "#EXTM3U\n#EXT-X-VERSION:18446744073709551615\n#EXT-X-TARGETDURATION:10\n";
    let playlist = MediaPlaylist::parse_ext_m3u(text).expect("playlist should parse");
    assert_eq!(playlist.version, u64::MAX);
}

#[test]
fn signed_version_accepted() {
    // `u64::from_str` accepts a leading plus sign.
    let text = "#EXTM3U\n#EXT-X-VERSION:+7\n#EXT-X-TARGETDURATION:10\n";
    let playlist = MediaPlaylist::parse_ext_m3u(text).expect("playlist should parse");
    assert_eq!(playlist.version, 7);
}

#[test]
fn non_numeric_target_duration_rejected() {
    let text = "#EXTM3U\n#EXT-X-TARGETDURATION:abc\n";
    let err = MediaPlaylist::parse_ext_m3u(text).unwrap_err();
    assert_eq!(err, ParseError::MalformedTag(TagKind::Duration));
}

#[test]
fn duration_tag_without_colon_rejected() {
    // A lone line that extends the tag without the colon separator counts
    // as the tag's occurrence, and its payload cannot be read.
    let text = "#EXTM3U\n#EXT-X-TARGETDURATION_10\n";
    let err = MediaPlaylist::parse_ext_m3u(text).unwrap_err();
    assert_eq!(err, ParseError::MalformedTag(TagKind::Duration));
}

#[test]
fn info_tag_without_colon_keeps_previous_duration() {
    // The collection pass is deliberately lenient: a bare info tag without
    // its colon leaves a duration pending without changing its value.
    let text = "#EXTM3U\n\
#EXT-X-TARGETDURATION:10\n\
#EXTINF\n\
a.ts\n\
#EXTINF:5.5,\n\
b.ts\n\
#EXTINF\n\
c.ts\n";
    let playlist = MediaPlaylist::parse_ext_m3u(text).expect("playlist should parse");
    assert_eq!(playlist.segments.len(), 3);
    assert_eq!(playlist.segments[0].duration, Duration::new(0, 0));
    assert_eq!(playlist.segments[1].duration, Duration::new(5, 500_000_000));
    assert_eq!(playlist.segments[2].duration, Duration::new(5, 500_000_000));
}

#[test]
fn unknown_tag_line_becomes_url_when_pending() {
    let text = "#EXTM3U\n\
#EXT-X-TARGETDURATION:10\n\
#EXTINF:5.0,\n\
#EXT-X-MEDIA-SEQUENCE:1\n\
a.ts\n";
    let playlist = MediaPlaylist::parse_ext_m3u(text).expect("playlist should parse");
    assert_eq!(playlist.segments.len(), 1);
    assert_eq!(playlist.segments[0].url, "#EXT-X-MEDIA-SEQUENCE:1".to_string());
}

#[test]
fn crlf_line_endings_accepted() {
    let text = "#EXTM3U\r\n#EXT-X-TARGETDURATION:10\r\n#EXTINF:5.0,\r\na.ts\r\n#EXT-X-ENDLIST\r\n";
    let playlist = MediaPlaylist::parse_ext_m3u(text).expect("playlist should parse");
    assert_eq!(playlist.target_duration, Duration::from_secs(10));
    assert_eq!(playlist.segments.len(), 1);
    assert_eq!(playlist.segments[0].url, "a.ts".to_string());
    assert!(playlist.ended);
}

#[test]
fn missing_final_newline_accepted() {
    let text = "#EXTM3U\n#EXT-X-TARGETDURATION:10\n#EXTINF:5.0,\na.ts";
    let playlist = MediaPlaylist::parse_ext_m3u(text).expect("playlist should parse");
    assert_eq!(playlist.segments.len(), 1);
    assert_eq!(playlist.segments[0].url, "a.ts".to_string());
}

#[test]
fn fractional_digits_beyond_nine_truncated() {
    let text = "#EXTM3U\n#EXT-X-TARGETDURATION:10\n#EXTINF:1.1234567899,\na.ts\n";
    let playlist = MediaPlaylist::parse_ext_m3u(text).expect("playlist should parse");
    assert_eq!(playlist.segments[0].duration, Duration::new(1, 123_456_789));
}

#[test]
fn bare_fraction_and_bare_integer_durations_accepted() {
    let text = "#EXTM3U\n#EXT-X-TARGETDURATION:10\n#EXTINF:.5,\na.ts\n#EXTINF:12.,\nb.ts\n#EXTINF:3,\nc.ts\n";
    let playlist = MediaPlaylist::parse_ext_m3u(text).expect("playlist should parse");
    assert_eq!(playlist.segments[0].duration, Duration::new(0, 500_000_000));
    assert_eq!(playlist.segments[1].duration, Duration::new(12, 0));
    assert_eq!(playlist.segments[2].duration, Duration::new(3, 0));
}

#[test]
fn lone_dot_duration_rejected() {
    let text = "#EXTM3U\n#EXT-X-TARGETDURATION:10\n#EXTINF:.,\na.ts\n";
    let err = MediaPlaylist::parse_ext_m3u(text).unwrap_err();
    assert_eq!(err, ParseError::MalformedTag(TagKind::SegmentInfo));
}

#[test]
fn segment_title_after_comma_discarded() {
    let text = "#EXTM3U\n#EXT-X-TARGETDURATION:10\n#EXTINF:5.25,Some Title, with comma\na.ts\n";
    let playlist = MediaPlaylist::parse_ext_m3u(text).expect("playlist should parse");
    assert_eq!(playlist.segments[0].duration, Duration::new(5, 250_000_000));
}

#[test]
fn duration_accessors_return_parts() {
    let d = Duration::new(7, 250_000_000);
    assert_eq!(d.as_secs(), 7);
    assert_eq!(d.subsec_nanos(), 250_000_000);
    let w = Duration::from_secs(9);
    assert_eq!(w.as_secs(), 9);
    assert_eq!(w.subsec_nanos(), 0);
}
