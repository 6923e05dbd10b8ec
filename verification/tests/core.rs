use mkvmeta::classify;
use mkvmeta::element::{Element, Mode};
use mkvmeta::extract::ExtractError;
use mkvmeta::inject::{inject, TagDict};
use mkvmeta::magic::FileType;
use mkvmeta::strutil::{str_eq, u64_to_string, u64_to_string_pad2};
use mkvmeta::video::{
    Entity, Episode, IdentityError, LookupEpisodeInfo, LookupMedia, LookupResult, LookupTitle,
    Metadata, Video, VideoData,
};

fn dict(
    title: &str,
    date: &str,
    comment: &str,
    imdb: &str,
    episode: &str,
    season: &str,
) -> TagDict {
    TagDict {
        title: title.to_string(),
        date_released: date.to_string(),
        comment: comment.to_string(),
        imdb: imdb.to_string(),
        episode: episode.to_string(),
        season: season.to_string(),
    }
}

fn empty_dict() -> TagDict {
    dict("", "", "", "", "", "")
}

fn simple_tag(name: &str, value: &str) -> Element {
    Element::SimpleTag(Mode::Full(vec![
        Element::TagName(name.to_string()),
        Element::TagString(value.to_string()),
    ]))
}

/// Counts SimpleTag subtrees anywhere in the stream whose name matches.
fn count_tags_named(stream: &[Element], name: &str) -> usize {
    let mut n = 0;
    for e in stream {
        if let Element::SimpleTag(Mode::Full(kids)) = e {
            if kids.iter().any(|k| matches!(k, Element::TagName(s) if s == name)) {
                n += 1;
            }
        }
    }
    n
}

#[test]
fn classify_full_hd() {
    assert_eq!(classify(1920, 1080), 1080);
}

#[test]
fn classify_near_tier_rounds_down() {
    assert_eq!(classify(1920, 1088), 1080);
}

#[test]
fn classify_midpoint_rounds_to_lower_tier() {
    // 1800 is exactly midway between 1440 and 2160.
    assert_eq!(classify(0, 1800), 1440);
}

#[test]
fn classify_above_ladder_returns_raw() {
    assert_eq!(classify(0, 5000), 5000);
}

#[test]
fn classify_below_ladder_returns_raw() {
    assert_eq!(classify(0, 240), 240);
}

#[test]
fn classify_uses_width_when_height_is_swapped() {
    // Effective vertical resolution from the width: 1920 * 9 / 16 = 1080.
    assert_eq!(classify(1920, 10), 1080);
}

#[test]
fn filename_episode() {
    let v = Video::from_path("Show.Name.S02E05.1080p.mkv".to_string(), FileType::MKV, None)
        .unwrap();
    match &v.info {
        VideoData::Episode(ep, meta) => {
            assert_eq!(ep.season, 2);
            assert_eq!(ep.episode, 5);
            assert_eq!(ep.series.title, "Show Name");
            assert_eq!(ep.title, "");
            assert_eq!(meta.resolution.1, 1080);
            assert_eq!(meta.resolution.0, 1080 / 9 * 16);
        }
        VideoData::Movie(..) => panic!("expected an episode"),
    }
    assert_eq!(v.file_extension, "mkv");
}

#[test]
fn filename_movie() {
    let v = Video::from_path("Movie.Title.2160p.mp4".to_string(), FileType::MP4, None).unwrap();
    match &v.info {
        VideoData::Movie(ent, meta) => {
            assert_eq!(ent.title, "Movie Title");
            assert_eq!(ent.release_year, 0);
            assert!(ent.imdb_id.is_none());
            assert_eq!(meta.resolution.1, 2160);
        }
        VideoData::Episode(..) => panic!("expected a movie"),
    }
    assert_eq!(v.file_extension, "mp4");
}

#[test]
fn filename_no_marker_is_movie() {
    let v = Video::from_path("Some.Film.720p.avi".to_string(), FileType::Unknown, None).unwrap();
    assert!(matches!(v.info, VideoData::Movie(..)));
}

#[test]
fn filename_embedded_episode_title() {
    let v = Video::from_path("Show.S01E02.The.Good.Part.1080p.mkv".to_string(), FileType::MKV, None)
        .unwrap();
    match &v.info {
        VideoData::Episode(ep, _) => {
            assert_eq!(ep.series.title, "Show");
            assert_eq!(ep.title, "The Good Part");
        }
        VideoData::Movie(..) => panic!("expected an episode"),
    }
}

#[test]
fn filename_season_defaults_to_one() {
    let v = Video::from_path("Show.E07.480p.mkv".to_string(), FileType::MKV, None).unwrap();
    match &v.info {
        VideoData::Episode(ep, _) => {
            assert_eq!(ep.season, 1);
            assert_eq!(ep.episode, 7);
        }
        VideoData::Movie(..) => panic!("expected an episode"),
    }
}

#[test]
fn from_path_rejects_trailing_slash() {
    let r = Video::from_path("videos/".to_string(), FileType::Unknown, None);
    assert!(r.is_err());
    assert_eq!(r.err().unwrap().message(), "Not a file");
}

#[test]
fn extraction_order_independent() {
    let a = vec![
        Element::Duration(17),
        Element::PixelWidth(1920),
        Element::PixelHeight(1080),
    ];
    let b = vec![
        Element::PixelHeight(1080),
        Element::PixelWidth(1920),
        Element::Duration(17),
    ];
    let ma = Metadata::from_tags(&a).unwrap();
    let mb = Metadata::from_tags(&b).unwrap();
    assert_eq!(ma.resolution, (1920, 1080));
    assert_eq!(mb.resolution, (1920, 1080));
    assert_eq!(ma.length, Some(17));
    assert_eq!(mb.length, Some(17));
}

#[test]
fn extraction_missing_duration_fails() {
    let a = vec![
        Element::PixelWidth(1920),
        Element::PixelHeight(1080),
        Element::DisplayWidth(3840),
        Element::DisplayHeight(2160),
    ];
    let r = Metadata::from_tags(&a);
    assert!(matches!(r, Err(ExtractError::Incomplete)));
    assert_eq!(ExtractError::Incomplete.message(), "Unable to extract metadata");
}

#[test]
fn extraction_display_dimensions_override() {
    let a = vec![
        Element::DisplayWidth(3840),
        Element::DisplayHeight(2160),
        Element::PixelWidth(1920),
        Element::PixelHeight(1080),
        Element::Duration(5),
    ];
    let m = Metadata::from_tags(&a).unwrap();
    assert_eq!(m.resolution, (3840, 2160));
}

#[test]
fn extraction_stops_once_complete() {
    // The display events after the completing prefix are never read.
    let a = vec![
        Element::Duration(5),
        Element::PixelWidth(1920),
        Element::PixelHeight(1080),
        Element::DisplayWidth(3840),
        Element::DisplayHeight(2160),
    ];
    let m = Metadata::from_tags(&a).unwrap();
    assert_eq!(m.resolution, (1920, 1080));
}

#[test]
fn inject_replaces_title_in_info() {
    let src = vec![
        Element::Info(Mode::Start),
        Element::Title("Old".to_string()),
        Element::Info(Mode::End),
        Element::Tracks(Mode::Start),
        Element::Tracks(Mode::End),
    ];
    let out = inject(src, "New".to_string(), empty_dict());
    assert_eq!(
        out,
        vec![
            Element::Info(Mode::Start),
            Element::Title("New".to_string()),
            Element::Info(Mode::End),
            Element::Tracks(Mode::Start),
            Element::Tracks(Mode::End),
        ]
    );
}

#[test]
fn inject_synthesizes_info_before_first_trigger() {
    // No Info at all: the synthesized one must come immediately before
    // Tracks, not before Tags.
    let src = vec![
        Element::Tracks(Mode::Start),
        Element::Tracks(Mode::End),
        Element::Tags(Mode::Start),
        Element::Tags(Mode::End),
    ];
    let out = inject(src, "T".to_string(), empty_dict());
    assert_eq!(
        out[0],
        Element::Info(Mode::Full(vec![Element::Title("T".to_string())]))
    );
    assert_eq!(out[1], Element::Tracks(Mode::Start));
}

#[test]
fn inject_empty_comment_drops_old_tag() {
    let src = vec![
        Element::Info(Mode::Start),
        Element::Info(Mode::End),
        Element::Tags(Mode::Start),
        Element::Tag(Mode::Start),
        simple_tag("COMMENT", "stale"),
        Element::Tag(Mode::End),
        Element::Tags(Mode::End),
    ];
    let out = inject(src, "T".to_string(), empty_dict());
    assert_eq!(count_tags_named(&out, "COMMENT"), 0);
}

#[test]
fn inject_emits_exactly_one_imdb_tag() {
    let src = vec![
        Element::Info(Mode::Start),
        Element::Info(Mode::End),
        Element::Tags(Mode::Start),
        Element::Tags(Mode::End),
    ];
    let out = inject(src, "T".to_string(), dict("", "", "", "tt123", "", ""));
    assert_eq!(count_tags_named(&out, "IMDB"), 1);
    assert!(out.contains(&simple_tag("IMDB", "tt123")));
}

#[test]
fn inject_preserves_foreign_tags() {
    let src = vec![
        Element::Info(Mode::Start),
        Element::Info(Mode::End),
        Element::Tags(Mode::Start),
        Element::Tag(Mode::Start),
        simple_tag("ARTIST", "someone"),
        Element::Tag(Mode::End),
        Element::Tags(Mode::End),
    ];
    let out = inject(src, "T".to_string(), dict("X", "", "", "", "", ""));
    assert_eq!(count_tags_named(&out, "ARTIST"), 1);
    assert!(out.contains(&simple_tag("ARTIST", "someone")));
}

#[test]
fn inject_appends_tags_section_when_none_exists() {
    let src = vec![
        Element::Info(Mode::Start),
        Element::Info(Mode::End),
        Element::Cluster(Mode::Start),
        Element::Cluster(Mode::End),
    ];
    let out = inject(src, "T".to_string(), dict("X", "1999", "", "", "", ""));
    assert_eq!(out[out.len() - 1], Element::Tags(Mode::End));
    assert_eq!(count_tags_named(&out, "TITLE"), 1);
    assert_eq!(count_tags_named(&out, "DATE_RELEASED"), 1);
}

#[test]
fn inject_round_trip_on_untouched_stream() {
    // A stream already carrying the right title, with an all-empty
    // dictionary: the same sequence of tags comes out, tag for tag.
    let src = || {
        vec![
            Element::Info(Mode::Start),
            Element::Duration(9),
            Element::Title("Keep".to_string()),
            Element::Info(Mode::End),
            Element::Tracks(Mode::Start),
            Element::PixelWidth(1920),
            Element::Tracks(Mode::End),
            Element::Cluster(Mode::Start),
            Element::BinaryOther(0xA3, vec![1, 2, 3]),
            Element::Cluster(Mode::End),
        ]
    };
    let out = inject(src(), "Keep".to_string(), empty_dict());
    assert_eq!(out, src());
}

#[test]
fn inject_idempotent() {
    let src = vec![
        Element::Info(Mode::Start),
        Element::Title("Old".to_string()),
        Element::Info(Mode::End),
        Element::Tracks(Mode::Start),
        Element::Tracks(Mode::End),
        Element::Tags(Mode::Start),
        Element::Tag(Mode::Start),
        simple_tag("ARTIST", "someone"),
        simple_tag("COMMENT", "stale"),
        Element::Tag(Mode::End),
        Element::Tags(Mode::End),
    ];
    let d = || dict("Show", "2001", "", "tt42", "5", "2");
    let once = inject(src, "Ep Title".to_string(), d());
    let once_again = inject(
        inject(
            vec![
                Element::Info(Mode::Start),
                Element::Title("Old".to_string()),
                Element::Info(Mode::End),
                Element::Tracks(Mode::Start),
                Element::Tracks(Mode::End),
                Element::Tags(Mode::Start),
                Element::Tag(Mode::Start),
                simple_tag("ARTIST", "someone"),
                simple_tag("COMMENT", "stale"),
                Element::Tag(Mode::End),
                Element::Tags(Mode::End),
            ],
            "Ep Title".to_string(),
            d(),
        ),
        "Ep Title".to_string(),
        d(),
    );
    let twice = once_again;
    assert_eq!(twice, once);
    assert_eq!(count_tags_named(&once, "TITLE"), 1);
    assert_eq!(count_tags_named(&once, "COMMENT"), 0);
    assert_eq!(count_tags_named(&once, "ARTIST"), 1);
}

#[test]
fn generate_file_name_episode() {
    let v = Video {
        path: "x".to_string(),
        file_type: FileType::MKV,
        file_extension: "mkv".to_string(),
        info: VideoData::Episode(
            Episode {
                episode: 5,
                season: 2,
                title: "".to_string(),
                imdb_id: None,
                series: Entity {
                    title: "Show Name".to_string(),
                    release_year: 0,
                    imdb_id: None,
                },
            },
            Metadata { resolution: (1920, 1080), length: None },
        ),
    };
    assert_eq!(v.generate_file_name(), "Show Name-S02E05-1080p.mkv");
}

#[test]
fn generate_file_name_movie() {
    let v = Video {
        path: "x".to_string(),
        file_type: FileType::MKV,
        file_extension: "mkv".to_string(),
        info: VideoData::Movie(
            Entity { title: "Film".to_string(), release_year: 2020, imdb_id: None },
            Metadata { resolution: (3840, 2160), length: None },
        ),
    };
    assert_eq!(v.generate_file_name(), "Film-2160p.mkv");
}

#[test]
fn tag_dictionary_for_episode() {
    let v = Video {
        path: "x".to_string(),
        file_type: FileType::MKV,
        file_extension: "mkv".to_string(),
        info: VideoData::Episode(
            Episode {
                episode: 5,
                season: 2,
                title: "Pilot".to_string(),
                imdb_id: Some("tt9".to_string()),
                series: Entity {
                    title: "Show".to_string(),
                    release_year: 1999,
                    imdb_id: None,
                },
            },
            Metadata { resolution: (1, 1), length: None },
        ),
    };
    let d = v.tag_dictionary();
    assert_eq!(d.title, "Show");
    assert_eq!(d.date_released, "1999");
    assert_eq!(d.comment, "");
    assert_eq!(d.imdb, "tt9");
    assert_eq!(d.episode, "5");
    assert_eq!(d.season, "2");
    assert_eq!(v.canonical_title(), "Pilot");
}

#[test]
fn magic_detects_containers() {
    assert_eq!(FileType::parse_file(&[0x1a, 0x45, 0xdf, 0xa3, 0, 0, 0, 0]), FileType::MKV);
    assert_eq!(
        FileType::parse_file(&[0x66, 0x74, 0x79, 0x70, 0x69, 0x73, 0x6f, 0x6d]),
        FileType::MP4
    );
    assert_eq!(FileType::parse_file(&[0, 1, 2, 3, 4, 5, 6, 7]), FileType::Unknown);
    assert_eq!(FileType::parse_file(&[0x1a]), FileType::Unknown);
}

#[test]
fn update_from_imdb_movie() {
    let mut v = Video::from_path("Film.1080p.mkv".to_string(), FileType::MKV, None).unwrap();
    let lookup = LookupResult::Movie(LookupMedia {
        title: LookupTitle {
            title: "Film Proper".to_string(),
            start_year: Some(2004),
            id: "tt7".to_string(),
        },
        episode: None,
    });
    assert!(v.update_from_imdb(&lookup).is_ok());
    match &v.info {
        VideoData::Movie(ent, meta) => {
            assert_eq!(ent.title, "Film Proper");
            assert_eq!(ent.release_year, 2004);
            assert_eq!(ent.imdb_id.as_deref(), Some("tt7"));
            assert_eq!(meta.resolution.1, 1080);
        }
        VideoData::Episode(..) => panic!("expected a movie"),
    }
}

#[test]
fn update_from_imdb_keeps_identity_on_failure() {
    let mut v = Video::from_path("Show.S01E01.720p.mkv".to_string(), FileType::MKV, None).unwrap();
    let series = LookupMedia {
        title: LookupTitle {
            title: "Show".to_string(),
            start_year: Some(1990),
            id: "tt1".to_string(),
        },
        episode: None,
    };
    // The episode record carries no episode data: the update must fail and
    // leave the identity untouched.
    let bad = LookupResult::Episode(
        LookupMedia {
            title: LookupTitle {
                title: "Ep".to_string(),
                start_year: None,
                id: "tt2".to_string(),
            },
            episode: None,
        },
        series,
    );
    let before_title = match &v.info {
        VideoData::Episode(ep, _) => ep.series.title.clone(),
        VideoData::Movie(..) => panic!("expected an episode"),
    };
    assert_eq!(v.update_from_imdb(&bad), Err(IdentityError::NoEpisodeData));
    match &v.info {
        VideoData::Episode(ep, _) => assert_eq!(ep.series.title, before_title),
        VideoData::Movie(..) => panic!("expected an episode"),
    }
}

#[test]
fn episode_from_lookup_error_cases() {
    let series = LookupMedia {
        title: LookupTitle { title: "S".to_string(), start_year: None, id: "t0".to_string() },
        episode: None,
    };
    let no_number = LookupMedia {
        title: LookupTitle { title: "E".to_string(), start_year: None, id: "t1".to_string() },
        episode: Some(LookupEpisodeInfo { episode: None, season: Some(1), id: "t2".to_string() }),
    };
    assert_eq!(
        Episode::from_lookup(&no_number, &series).err(),
        Some(IdentityError::NoEpisodeNumber)
    );
    let no_season = LookupMedia {
        title: LookupTitle { title: "E".to_string(), start_year: None, id: "t1".to_string() },
        episode: Some(LookupEpisodeInfo { episode: Some(3), season: None, id: "t2".to_string() }),
    };
    assert_eq!(
        Episode::from_lookup(&no_season, &series).err(),
        Some(IdentityError::NoSeasonNumber)
    );
    let good = LookupMedia {
        title: LookupTitle { title: "E".to_string(), start_year: None, id: "t1".to_string() },
        episode: Some(LookupEpisodeInfo {
            episode: Some(3),
            season: Some(1),
            id: "t2".to_string(),
        }),
    };
    let ep = Episode::from_lookup(&good, &series).unwrap();
    assert_eq!(ep.episode, 3);
    assert_eq!(ep.season, 1);
    assert_eq!(ep.title, "E");
    assert_eq!(ep.imdb_id.as_deref(), Some("t2"));
    assert_eq!(ep.series.title, "S");
}

#[test]
fn decimal_rendering() {
    assert_eq!(u64_to_string(0), "0");
    assert_eq!(u64_to_string(1080), "1080");
    assert_eq!(u64_to_string(18446744073709551615), "18446744073709551615");
    assert_eq!(u64_to_string_pad2(0), "00");
    assert_eq!(u64_to_string_pad2(7), "07");
    assert_eq!(u64_to_string_pad2(42), "42");
    assert_eq!(u64_to_string_pad2(123), "123");
}

#[test]
fn string_equality() {
    assert!(str_eq("abc", "abc"));
    assert!(!str_eq("abc", "abd"));
    assert!(!str_eq("abc", "ab"));
    assert!(str_eq("", ""));
}

#[test]
fn from_vertical_resolution_synthesizes_width() {
    let m = Metadata::from_vertical_resolution(1080, Some(3));
    assert_eq!(m.resolution, (1080 / 9 * 16, 1080));
    assert_eq!(m.length, Some(3));
    assert_eq!(m.get_resolution(), 1080);
}

#[test]
fn rewrite_tags_for_episode_video() {
    let v = Video {
        path: "x".to_string(),
        file_type: FileType::MKV,
        file_extension: "mkv".to_string(),
        info: VideoData::Episode(
            Episode {
                episode: 5,
                season: 2,
                title: "Pilot".to_string(),
                imdb_id: Some("tt9".to_string()),
                series: Entity {
                    title: "Show".to_string(),
                    release_year: 1999,
                    imdb_id: None,
                },
            },
            Metadata { resolution: (1920, 1080), length: None },
        ),
    };
    let src = vec![
        Element::Info(Mode::Start),
        Element::Info(Mode::End),
        Element::Tags(Mode::Start),
        Element::Tag(Mode::Start),
        simple_tag("COMMENT", "stale"),
        Element::Tag(Mode::End),
        Element::Tags(Mode::End),
    ];
    let out = v.rewrite_tags(src);
    // The episode's own title stands inside Info.
    assert!(out.contains(&Element::Title("Pilot".to_string())));
    // The stale comment is gone; the dictionary's tags are merged in once
    // each, with the series title under TITLE.
    assert_eq!(count_tags_named(&out, "COMMENT"), 0);
    assert!(out.contains(&simple_tag("TITLE", "Show")));
    assert!(out.contains(&simple_tag("DATE_RELEASED", "1999")));
    assert!(out.contains(&simple_tag("IMDB", "tt9")));
    assert!(out.contains(&simple_tag("EPISODE", "5")));
    assert!(out.contains(&simple_tag("SEASON", "2")));
    assert_eq!(count_tags_named(&out, "TITLE"), 1);
}

#[test]
fn filename_overflowing_quality_is_ignored() {
    // A 21-digit "quality" cannot be represented: the marker is ignored,
    // so no quality hint bounds the title and none synthesizes metadata.
    let v = Video::from_path(
        "Clip.999999999999999999999p.mkv".to_string(),
        FileType::Unknown,
        None,
    )
    .unwrap();
    match &v.info {
        VideoData::Movie(ent, meta) => {
            assert_eq!(ent.title, "Clip 999999999999999999999p");
            assert_eq!(meta.resolution, (0, 0));
        }
        VideoData::Episode(..) => panic!("expected a movie"),
    }
}

#[test]
fn filename_marker_first_token_gives_empty_title() {
    let v = Video::from_path("S01E01.mkv".to_string(), FileType::Unknown, None).unwrap();
    match &v.info {
        VideoData::Episode(ep, _) => {
            assert_eq!(ep.series.title, "");
            assert_eq!(ep.season, 1);
            assert_eq!(ep.episode, 1);
        }
        VideoData::Movie(..) => panic!("expected an episode"),
    }
}
