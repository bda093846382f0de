use pagepress::calendar::{
    civil_date, display_date, group_id, group_name, month_label, month_name, CivilDate,
};
use pagepress::timeline::{
    date_entry, entries_are_valid, filler, group_by_month, link_index, month_starts,
    timeline_entries, timeline_of, timeline_video, timeline_view, TimelineEntry,
};
use pagepress::video::{
    check_timestamps, is_listed, prepare_videos, sort_by_release, DataError, VideoInfo,
};

const JAN_15_2023: i64 = 1_673_740_800;
const DAY: i64 = 86_400;

fn video(id: &str, timestamp: i64) -> VideoInfo {
    VideoInfo {
        id: id.to_string(),
        title: format!("Video {}", id),
        release_timestamp: timestamp,
        was_live: false,
        playable_in_embed: true,
        availability: "public".to_string(),
    }
}

fn entry(id: &str, year: i32, month: u8, day: u8) -> TimelineEntry {
    TimelineEntry {
        title: format!("Video {}", id),
        video_id: id.to_string(),
        date: CivilDate { year, month, day },
        timestamp_rfc3339: format!("{:04}-{:02}-{:02}T00:00:00Z", year, month, day),
    }
}

#[test]
fn calendar_dates_come_from_the_instant() {
    assert_eq!(civil_date(0), Some(CivilDate { year: 1970, month: 1, day: 1 }));
    assert_eq!(civil_date(JAN_15_2023), Some(CivilDate { year: 2023, month: 1, day: 15 }));
    assert_eq!(
        civil_date(JAN_15_2023 + DAY - 1),
        Some(CivilDate { year: 2023, month: 1, day: 15 })
    );
    assert_eq!(civil_date(JAN_15_2023 + 17 * DAY), Some(CivilDate { year: 2023, month: 2, day: 1 }));
    assert_eq!(civil_date(-1), Some(CivilDate { year: 1969, month: 12, day: 31 }));
    assert_eq!(civil_date(951_782_400), Some(CivilDate { year: 2000, month: 2, day: 29 }));
    assert_eq!(civil_date(i64::MAX), None);
    assert_eq!(civil_date(i64::MIN), None);
}

#[test]
fn rfc3339_text_comes_from_the_instant() {
    assert_eq!(date_entry(&video("a", 0)).unwrap().timestamp_rfc3339, "1970-01-01T00:00:00Z");
    assert_eq!(
        date_entry(&video("a", JAN_15_2023 + 3661)).unwrap().timestamp_rfc3339,
        "2023-01-15T01:01:01Z"
    );
    // The year -1 has a date but no RFC 3339 text.
    let before_year_zero = -62_198_755_200;
    assert_eq!(civil_date(before_year_zero).map(|d| d.year), Some(-1));
    assert_eq!(
        date_entry(&video("a", before_year_zero)),
        Err(DataError::Timestamp { timestamp: before_year_zero })
    );
}

#[test]
fn month_names_and_labels() {
    let names = [
        "January", "February", "March", "April", "May", "June", "July", "August", "September",
        "October", "November", "December",
    ];
    for m in 1..=12u8 {
        assert_eq!(month_name(m), names[(m - 1) as usize]);
        assert_eq!(month_label(m), &names[(m - 1) as usize][..3]);
    }
    for a in 1..=12u8 {
        for b in (a + 1)..=12u8 {
            assert_ne!(month_label(a), month_label(b));
        }
    }
}

#[test]
fn group_anchor_heading_and_display() {
    let date = CivilDate { year: 2023, month: 1, day: 15 };
    assert_eq!(group_id(date), "group-2023-01");
    assert_eq!(group_name(date), "January 2023");
    assert_eq!(display_date(date), "January 15, 2023");
    let date = CivilDate { year: 1999, month: 12, day: 1 };
    assert_eq!(group_id(date), "group-1999-12");
    assert_eq!(group_name(date), "December 1999");
    assert_eq!(display_date(date), "December 1, 1999");
    let date = CivilDate { year: -44, month: 3, day: 31 };
    assert_eq!(group_id(date), "group--44-03");
    assert_eq!(group_name(date), "March -44");
    assert_eq!(display_date(date), "March 31, -44");
    let date = CivilDate { year: 0, month: 10, day: 9 };
    assert_eq!(group_id(date), "group-0-10");
    let date = CivilDate { year: i32::MIN, month: 1, day: 1 };
    assert_eq!(group_id(date), "group--2147483648-01");
}

#[test]
fn only_public_embeddable_videos_are_listed() {
    let mut v = video("a", 0);
    assert!(is_listed(&v));
    v.playable_in_embed = false;
    assert!(!is_listed(&v));
    v.playable_in_embed = true;
    v.availability = "unlisted".to_string();
    assert!(!is_listed(&v));
    v.availability = "Public".to_string();
    assert!(!is_listed(&v));
    v.availability = "public".to_string();
    v.was_live = true;
    assert!(is_listed(&v));
}

#[test]
fn two_january_videos_share_one_group() {
    let videos = vec![video("first", JAN_15_2023), video("second", JAN_15_2023 + 13 * DAY)];
    let timeline = timeline_view(&videos).unwrap();
    assert_eq!(timeline.groups.len(), 1);
    let group = &timeline.groups[0];
    assert_eq!(group.group_id, "group-2023-01");
    assert_eq!(group.group_name, "January 2023");
    assert_eq!(group.videos.len(), 2);
    assert_eq!(group.videos[0].video_id, "first");
    assert_eq!(group.videos[0].title, "Video first");
    assert_eq!(group.videos[0].timestamp_display, "January 15, 2023");
    assert_eq!(group.videos[0].timestamp_rfc3339, "2023-01-15T00:00:00Z");
    assert_eq!(group.videos[1].video_id, "second");
    assert_eq!(group.videos[1].timestamp_display, "January 28, 2023");
    assert_eq!(group.videos[1].timestamp_rfc3339, "2023-01-28T00:00:00Z");
    assert!(!group.videos[0].blurb.is_empty());
    assert!(!group.videos[1].blurb.is_empty());
    assert_eq!(timeline.links.len(), 1);
    assert_eq!(timeline.links[0].year, 2023);
    assert_eq!(timeline.links[0].links.len(), 1);
    assert_eq!(timeline.links[0].links[0].display_string, "Jan");
    assert_eq!(timeline.links[0].links[0].link_id, "group-2023-01");
}

#[test]
fn groups_hold_as_many_videos_as_are_listed() {
    let mut videos = Vec::new();
    for i in 0..40i64 {
        let mut v = video(&format!("v{}", i), JAN_15_2023 + i * 11 * DAY);
        if i % 3 == 0 {
            v.playable_in_embed = false;
        }
        if i % 7 == 0 {
            v.availability = "private".to_string();
        }
        videos.push(v);
    }
    let listed = videos.iter().filter(|v| is_listed(v)).count();
    let timeline = timeline_view(&videos).unwrap();
    let total: usize = timeline.groups.iter().map(|g| g.videos.len()).sum();
    assert_eq!(total, listed);
    assert_eq!(listed, 22);
    let ids: Vec<String> = timeline
        .groups
        .iter()
        .flat_map(|g| g.videos.iter().map(|v| v.video_id.clone()))
        .collect();
    let expected: Vec<String> =
        videos.iter().filter(|v| is_listed(v)).map(|v| v.id.clone()).collect();
    assert_eq!(ids, expected);
    for g in &timeline.groups {
        assert!(!g.videos.is_empty());
    }
    let months: usize = timeline.links.iter().map(|y| y.links.len()).sum();
    assert_eq!(months, timeline.groups.len());
}

#[test]
fn groups_follow_the_months() {
    let entries = vec![
        entry("a", 2022, 12, 30),
        entry("b", 2022, 12, 31),
        entry("c", 2023, 1, 1),
        entry("d", 2023, 3, 5),
        entry("e", 2023, 3, 5),
        entry("f", 2023, 3, 9),
        entry("g", 2024, 3, 1),
    ];
    assert_eq!(month_starts(&entries), vec![0, 2, 3, 6]);
    let groups = group_by_month(&entries);
    let ids: Vec<&str> = groups.iter().map(|g| g.group_id.as_str()).collect();
    assert_eq!(ids, vec!["group-2022-12", "group-2023-01", "group-2023-03", "group-2024-03"]);
    let names: Vec<&str> = groups.iter().map(|g| g.group_name.as_str()).collect();
    assert_eq!(names, vec!["December 2022", "January 2023", "March 2023", "March 2024"]);
    let sizes: Vec<usize> = groups.iter().map(|g| g.videos.len()).collect();
    assert_eq!(sizes, vec![2, 1, 3, 1]);
    assert_eq!(groups[2].videos[0].video_id, "d");
    assert_eq!(groups[2].videos[1].video_id, "e");
    assert_eq!(groups[2].videos[2].video_id, "f");
    assert_eq!(groups[2].videos[2].timestamp_display, "March 9, 2023");
    assert_eq!(groups[2].videos[2].timestamp_rfc3339, "2023-03-09T00:00:00Z");
}

#[test]
fn link_index_follows_the_years() {
    let entries = vec![
        entry("a", 2022, 12, 30),
        entry("b", 2022, 12, 31),
        entry("c", 2023, 1, 1),
        entry("d", 2023, 3, 5),
        entry("e", 2023, 3, 5),
        entry("f", 2024, 3, 1),
    ];
    let index = link_index(&entries);
    assert_eq!(index.len(), 3);
    assert_eq!(index[0].year, 2022);
    assert_eq!(index[1].year, 2023);
    assert_eq!(index[2].year, 2024);
    let labels: Vec<Vec<&str>> = index
        .iter()
        .map(|y| y.links.iter().map(|l| l.display_string.as_str()).collect())
        .collect();
    assert_eq!(labels, vec![vec!["Dec"], vec!["Jan", "Mar"], vec!["Mar"]]);
    let anchors: Vec<Vec<&str>> =
        index.iter().map(|y| y.links.iter().map(|l| l.link_id.as_str()).collect()).collect();
    assert_eq!(
        anchors,
        vec![vec!["group-2022-12"], vec!["group-2023-01", "group-2023-03"], vec!["group-2024-03"]]
    );
}

#[test]
fn months_that_are_not_neighbours_are_not_merged() {
    let entries = vec![
        entry("a", 2023, 1, 1),
        entry("b", 2023, 2, 1),
        entry("c", 2023, 1, 2),
        entry("d", 2022, 1, 2),
        entry("e", 2023, 1, 3),
    ];
    let groups = group_by_month(&entries);
    let ids: Vec<&str> = groups.iter().map(|g| g.group_id.as_str()).collect();
    assert_eq!(
        ids,
        vec!["group-2023-01", "group-2023-02", "group-2023-01", "group-2022-01", "group-2023-01"]
    );
    let index = link_index(&entries);
    let years: Vec<i32> = index.iter().map(|y| y.year).collect();
    assert_eq!(years, vec![2023, 2022, 2023]);
    let labels: Vec<Vec<&str>> = index
        .iter()
        .map(|y| y.links.iter().map(|l| l.display_string.as_str()).collect())
        .collect();
    assert_eq!(labels, vec![vec!["Jan", "Feb", "Jan"], vec!["Jan"], vec!["Jan"]]);
}

#[test]
fn neighbouring_links_of_a_year_never_share_a_label() {
    let mut entries = Vec::new();
    let months = [1u8, 1, 2, 2, 2, 1, 3, 3, 12, 12, 1, 1, 5];
    let years = [2020, 2020, 2020, 2020, 2020, 2020, 2020, 2021, 2021, 2021, 2021, 2022, 2022];
    for i in 0..months.len() {
        entries.push(entry(&format!("v{}", i), years[i], months[i], 1));
    }
    let index = link_index(&entries);
    for year in &index {
        assert!(!year.links.is_empty());
        for pair in year.links.windows(2) {
            assert_ne!(pair[0].display_string, pair[1].display_string);
        }
    }
    for pair in index.windows(2) {
        assert_ne!(pair[0].year, pair[1].year);
    }
}

#[test]
fn regrouping_the_groups_changes_nothing() {
    let entries = vec![
        entry("a", 2022, 12, 30),
        entry("b", 2022, 12, 31),
        entry("c", 2023, 1, 1),
        entry("d", 2023, 3, 5),
        entry("e", 2023, 3, 5),
    ];
    let groups = group_by_month(&entries);
    // Laid end to end the groups are the entries again.
    let flat: Vec<&str> =
        groups.iter().flat_map(|g| g.videos.iter().map(|v| v.video_id.as_str())).collect();
    assert_eq!(flat, vec!["a", "b", "c", "d", "e"]);
    // One entry per month groups into one group per entry.
    let starts = month_starts(&entries);
    let heads: Vec<TimelineEntry> = starts.iter().map(|&i| entries[i].clone()).collect();
    let again = group_by_month(&heads);
    assert_eq!(again.len(), heads.len());
    for (g, h) in again.iter().zip(heads.iter()) {
        assert_eq!(g.videos.len(), 1);
        assert_eq!(g.videos[0].video_id, h.video_id);
    }
    let ids: Vec<&str> = groups.iter().map(|g| g.group_id.as_str()).collect();
    let ids_again: Vec<&str> = again.iter().map(|g| g.group_id.as_str()).collect();
    assert_eq!(ids, ids_again);
    assert_eq!(month_starts(&heads), vec![0, 1, 2]);
}

#[test]
fn empty_catalog_has_an_empty_timeline() {
    let timeline = timeline_view(&Vec::new()).unwrap();
    assert!(timeline.groups.is_empty());
    assert!(timeline.links.is_empty());
    let timeline = timeline_of(&Vec::new());
    assert!(timeline.groups.is_empty());
    assert!(timeline.links.is_empty());
    assert!(month_starts(&Vec::new()).is_empty());
}

#[test]
fn unlisted_videos_need_no_date() {
    let mut hidden = video("hidden", i64::MAX);
    hidden.playable_in_embed = false;
    let videos = vec![video("a", JAN_15_2023), hidden, video("b", JAN_15_2023 + 40 * DAY)];
    let entries = timeline_entries(&videos).unwrap();
    assert_eq!(entries.len(), 2);
    assert_eq!(entries[0].video_id, "a");
    assert_eq!(entries[0].date, CivilDate { year: 2023, month: 1, day: 15 });
    assert_eq!(entries[1].video_id, "b");
    assert_eq!(entries[1].date, CivilDate { year: 2023, month: 2, day: 24 });
    assert_eq!(entries[1].timestamp_rfc3339, "2023-02-24T00:00:00Z");
}

#[test]
fn listed_video_without_a_date_fails_the_timeline() {
    let videos =
        vec![video("a", JAN_15_2023), video("far", i64::MAX - 5), video("worse", i64::MIN)];
    assert_eq!(
        timeline_view(&videos).err(),
        Some(DataError::Timestamp { timestamp: i64::MAX - 5 })
    );
    assert_eq!(
        timeline_entries(&videos).err(),
        Some(DataError::Timestamp { timestamp: i64::MAX - 5 })
    );
    assert_eq!(
        date_entry(&videos[2]),
        Err(DataError::Timestamp { timestamp: i64::MIN })
    );
}

#[test]
fn dated_entry_copies_the_video() {
    let e = date_entry(&video("abc", JAN_15_2023 + 5)).unwrap();
    assert_eq!(e.title, "Video abc");
    assert_eq!(e.video_id, "abc");
    assert_eq!(e.date, CivilDate { year: 2023, month: 1, day: 15 });
    assert_eq!(e.timestamp_rfc3339, "2023-01-15T00:00:05Z");
    let shown = timeline_video(&e);
    assert_eq!(shown.title, "Video abc");
    assert_eq!(shown.video_id, "abc");
    assert_eq!(shown.timestamp_display, "January 15, 2023");
    assert_eq!(shown.timestamp_rfc3339, "2023-01-15T00:00:05Z");
    assert_eq!(shown.blurb, filler(15));
}

#[test]
fn filler_is_never_empty() {
    for day in 0..=255u8 {
        assert!(!filler(day).is_empty());
    }
    assert_eq!(filler(3), "Lorem ipsum dolor sit amet, consectetur adipiscing elit.");
    assert_eq!(filler(1), "Sed do eiusmod tempor incididunt ut labore et dolore magna aliqua.");
    assert_eq!(filler(2), "Ut enim ad minim veniam, quis nostrud exercitation ullamco laboris.");
}

#[test]
fn sort_is_ascending_and_stable() {
    let videos = vec![
        video("c1", 30),
        video("a1", 10),
        video("b1", 20),
        video("a2", 10),
        video("c2", 30),
        video("a3", 10),
        video("z", -5),
    ];
    let sorted = sort_by_release(videos);
    let ids: Vec<&str> = sorted.iter().map(|v| v.id.as_str()).collect();
    assert_eq!(ids, vec!["z", "a1", "a2", "a3", "b1", "c1", "c2"]);
    assert!(sort_by_release(Vec::new()).is_empty());
}

#[test]
fn sort_keeps_a_sorted_catalog() {
    let videos: Vec<VideoInfo> = (0..20).map(|i| video(&format!("v{}", i), i / 3)).collect();
    let sorted = sort_by_release(videos.clone());
    assert_eq!(sorted, videos);
    let reversed: Vec<VideoInfo> = videos.iter().rev().cloned().collect();
    let sorted = sort_by_release(reversed);
    let stamps: Vec<i64> = sorted.iter().map(|v| v.release_timestamp).collect();
    let mut expected: Vec<i64> = videos.iter().map(|v| v.release_timestamp).collect();
    expected.sort();
    assert_eq!(stamps, expected);
    assert_eq!(sorted.len(), 20);
}

#[test]
fn catalog_with_an_instant_out_of_range_is_refused() {
    let videos = vec![video("a", 5), video("b", i64::MAX), video("c", i64::MIN)];
    assert_eq!(check_timestamps(&videos), Err(DataError::Timestamp { timestamp: i64::MAX }));
    assert_eq!(prepare_videos(videos), Err(DataError::Timestamp { timestamp: i64::MAX }));
    let videos = vec![video("b", 7), video("a", 5)];
    assert_eq!(check_timestamps(&videos), Ok(()));
    let sorted = prepare_videos(videos).unwrap();
    assert_eq!(sorted[0].id, "a");
    assert_eq!(sorted[1].id, "b");
}

#[test]
fn sorted_catalog_groups_one_group_per_month() {
    let videos = vec![
        video("mar", JAN_15_2023 + 50 * DAY),
        video("jan-b", JAN_15_2023 + DAY),
        video("feb", JAN_15_2023 + 20 * DAY),
        video("jan-a", JAN_15_2023),
    ];
    let sorted = prepare_videos(videos).unwrap();
    let timeline = timeline_view(&sorted).unwrap();
    let ids: Vec<&str> = timeline.groups.iter().map(|g| g.group_id.as_str()).collect();
    assert_eq!(ids, vec!["group-2023-01", "group-2023-02", "group-2023-03"]);
    assert_eq!(timeline.groups[0].videos[0].video_id, "jan-a");
    assert_eq!(timeline.groups[0].videos[1].video_id, "jan-b");
    assert_eq!(timeline.links.len(), 1);
    let labels: Vec<&str> =
        timeline.links[0].links.iter().map(|l| l.display_string.as_str()).collect();
    assert_eq!(labels, vec!["Jan", "Feb", "Mar"]);
}

#[test]
fn dates_are_valid_within_their_ranges() {
    assert!(CivilDate { year: 2023, month: 1, day: 1 }.is_valid());
    assert!(CivilDate { year: -5, month: 12, day: 31 }.is_valid());
    assert!(!CivilDate { year: 2023, month: 0, day: 1 }.is_valid());
    assert!(!CivilDate { year: 2023, month: 13, day: 1 }.is_valid());
    assert!(!CivilDate { year: 2023, month: 1, day: 0 }.is_valid());
    assert!(!CivilDate { year: 2023, month: 1, day: 32 }.is_valid());
    assert!(entries_are_valid(&Vec::new()));
    assert!(entries_are_valid(&vec![entry("a", 2023, 1, 1), entry("b", 2023, 12, 31)]));
    assert!(!entries_are_valid(&vec![entry("a", 2023, 1, 1), entry("b", 2023, 13, 1)]));
    let dated = timeline_entries(&vec![video("a", JAN_15_2023), video("b", 0)]).unwrap();
    assert!(entries_are_valid(&dated));
}
