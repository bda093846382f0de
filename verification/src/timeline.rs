//! The timeline: listed videos grouped by month, and the index of months by
//! year that links into the groups.
//!
//! Grouping is done in one pass over neighbours (see [`crate::runs`]), so
//! it gives one group per month only on a catalog that is sorted by release
//! instant. A [`TimelineEntry`] is a listed video with its date; everything
//! after the dating is a function of the entries.

use vstd::prelude::*;
use crate::calendar::{
    civil_date,
    date_of,
    display_date,
    display_of,
    group_id,
    group_id_of,
    group_name,
    group_name_of,
    lemma_month_labels_differ,
    month_label,
    month_label_of,
    rfc3339_from_unix,
    utc_rfc3339,
    CivilDate,
};
use crate::runs::{
    concat_all,
    heads,
    lemma_heads_are_runs,
    lemma_next_run,
    lemma_regroup,
    lemma_runs,
    lemma_sorted_runs,
    runs_by,
    singletons,
    total_len,
};
use crate::video::{is_listed, listed, DataError, VideoInfo};

verus! {

/// A listed video with the date of its release.
#[derive(Clone, Debug, PartialEq, Eq)]
pub struct TimelineEntry {
    pub title: String,
    pub video_id: String,
    pub date: CivilDate,
    pub timestamp_rfc3339: String,
}

/// What a [`TimelineEntry`] holds, as plain values.
pub struct EntryView {
    pub title: Seq<char>,
    pub video_id: Seq<char>,
    pub date: CivilDate,
    pub timestamp_rfc3339: Seq<char>,
}

impl View for TimelineEntry {
    type V = EntryView;

    open spec fn view(&self) -> EntryView {
        EntryView {
            title: self.title@,
            video_id: self.video_id@,
            date: self.date,
            timestamp_rfc3339: self.timestamp_rfc3339@,
        }
    }
}

/// A video as the timeline shows it.
#[derive(Clone, Debug, PartialEq, Eq)]
pub struct TimelineVideo {
    pub title: String,
    pub video_id: String,
    pub timestamp_display: String,
    pub timestamp_rfc3339: String,
    /// Placeholder text, never empty.
    pub blurb: String,
}

/// The videos of one month.
#[derive(Clone, Debug, PartialEq, Eq)]
pub struct TimelineGroup {
    /// The group's anchor in the page.
    pub group_id: String,
    /// The group's heading.
    pub group_name: String,
    pub videos: Vec<TimelineVideo>,
}

/// A link to the group of one month.
#[derive(Clone, Debug, PartialEq, Eq)]
pub struct TimelineLink {
    pub display_string: String,
    /// The anchor of the group that the link leads to.
    pub link_id: String,
}

/// The links to the months of one year.
#[derive(Clone, Debug, PartialEq, Eq)]
pub struct TimelineLinksGroup {
    pub year: i32,
    pub links: Vec<TimelineLink>,
}

/// The timeline's render context.
#[derive(Clone, Debug, PartialEq, Eq)]
pub struct Timeline {
    pub groups: Vec<TimelineGroup>,
    pub links: Vec<TimelineLinksGroup>,
}

/// The entries as plain values.
pub open spec fn views(entries: Seq<TimelineEntry>) -> Seq<EntryView> {
    entries.map_values(|e: TimelineEntry| e@)
}

/// The key of month grouping: year and month.
pub open spec fn month_key() -> spec_fn(EntryView) -> (i32, u8) {
    |e: EntryView| (e.date.year, e.date.month)
}

/// The key of year grouping.
pub open spec fn year_key() -> spec_fn(EntryView) -> i32 {
    |e: EntryView| e.date.year
}

/// The entries in runs of one month each.
pub open spec fn month_runs(entries: Seq<EntryView>) -> Seq<Seq<EntryView>> {
    runs_by(entries, month_key())
}

/// The first entry of each month's run.
pub open spec fn month_heads(entries: Seq<EntryView>) -> Seq<EntryView> {
    heads(month_runs(entries))
}

/// The months, one entry for each, in runs of one year each.
pub open spec fn year_runs(entries: Seq<EntryView>) -> Seq<Seq<EntryView>> {
    runs_by(month_heads(entries), year_key())
}

/// Every entry's date is well formed.
pub open spec fn all_wf(entries: Seq<EntryView>) -> bool {
    forall|i: int| 0 <= i < entries.len() ==> (#[trigger] entries[i]).date.wf()
}

/// Tests whether every entry's date is well formed.
pub fn entries_are_valid(entries: &Vec<TimelineEntry>) -> (r: bool)
    ensures
        r == all_wf(views(entries@)),
{
    let mut i: usize = 0;
    while i < entries.len()
        invariant
            i <= entries@.len(),
            forall|j: int| 0 <= j < i ==> (#[trigger] views(entries@)[j]).date.wf(),
        decreases entries@.len() - i,
    {
        if !entries[i].date.is_valid() {
            proof {
                assert(!views(entries@)[i as int].date.wf());
            }
            return false;
        }
        i = i + 1;
    }
    true
}

/// The placeholder text for a video released on the given day of a month.
pub open spec fn filler_text(day: int) -> Seq<char> {
    if day % 3 == 0 {
        "Lorem ipsum dolor sit amet, consectetur adipiscing elit."@
    } else if day % 3 == 1 {
        "Sed do eiusmod tempor incididunt ut labore et dolore magna aliqua."@
    } else {
        "Ut enim ad minim veniam, quis nostrud exercitation ullamco laboris."@
    }
}

/// The placeholder text is never empty.
pub proof fn lemma_filler_nonempty(day: int)
    ensures
        filler_text(day).len() > 0,
{
    reveal_strlit("Lorem ipsum dolor sit amet, consectetur adipiscing elit.");
    reveal_strlit("Sed do eiusmod tempor incididunt ut labore et dolore magna aliqua.");
    reveal_strlit("Ut enim ad minim veniam, quis nostrud exercitation ullamco laboris.");
}

/// The placeholder text for a video released on the given day of a month.
pub fn filler(day: u8) -> (r: &'static str)
    ensures
        r@ == filler_text(day as int),
        r@.len() > 0,
{
    proof {
        lemma_filler_nonempty(day as int);
    }
    if day % 3 == 0 {
        "Lorem ipsum dolor sit amet, consectetur adipiscing elit."
    } else if day % 3 == 1 {
        "Sed do eiusmod tempor incididunt ut labore et dolore magna aliqua."
    } else {
        "Ut enim ad minim veniam, quis nostrud exercitation ullamco laboris."
    }
}

/// `video` shows `entry`: same title, id and RFC 3339 text, the date as
/// displayed, and the placeholder text for the day.
pub open spec fn video_shows(video: TimelineVideo, entry: EntryView) -> bool {
    &&& video.title@ == entry.title
    &&& video.video_id@ == entry.video_id
    &&& video.timestamp_display@ == display_of(entry.date)
    &&& video.timestamp_rfc3339@ == entry.timestamp_rfc3339
    &&& video.blurb@ == filler_text(entry.date.day as int)
}

/// `videos` show `entries`, one for one and in order.
pub open spec fn videos_show(videos: Seq<TimelineVideo>, entries: Seq<EntryView>) -> bool {
    &&& videos.len() == entries.len()
    &&& forall|j: int| 0 <= j < videos.len() ==> video_shows(#[trigger] videos[j], entries[j])
}

/// `group` is the group of the run `run`: it is named after the month of
/// the run's first entry and shows the run's entries.
pub open spec fn group_shows(group: TimelineGroup, run: Seq<EntryView>) -> bool {
    &&& run.len() > 0
    &&& group.group_id@ == group_id_of(run[0].date)
    &&& group.group_name@ == group_name_of(run[0].date)
    &&& videos_show(group.videos@, run)
}

/// `groups` are the groups of `runs`, one for one and in order.
pub open spec fn groups_show(groups: Seq<TimelineGroup>, runs: Seq<Seq<EntryView>>) -> bool {
    &&& groups.len() == runs.len()
    &&& forall|k: int| 0 <= k < groups.len() ==> group_shows(#[trigger] groups[k], runs[k])
}

/// The number of videos in all groups together.
pub open spec fn total_videos(groups: Seq<TimelineGroup>) -> nat
    decreases groups.len(),
{
    if groups.len() == 0 {
        0
    } else {
        total_videos(groups.drop_last()) + groups.last().videos@.len()
    }
}

/// `link` leads to the month of `entry`: it is labelled with the month and
/// points at the anchor of the month's group.
pub open spec fn link_shows(link: TimelineLink, entry: EntryView) -> bool {
    &&& link.display_string@ == month_label_of(entry.date.month as int)
    &&& link.link_id@ == group_id_of(entry.date)
}

/// `group` indexes the months of the run `run` of one year.
pub open spec fn links_group_shows(group: TimelineLinksGroup, run: Seq<EntryView>) -> bool {
    &&& run.len() > 0
    &&& group.year == run[0].date.year
    &&& group.links@.len() == run.len()
    &&& forall|j: int| 0 <= j < run.len() ==> link_shows(#[trigger] group.links@[j], run[j])
}

/// `groups` index `runs`, one for one and in order.
pub open spec fn link_groups_show(
    groups: Seq<TimelineLinksGroup>,
    runs: Seq<Seq<EntryView>>,
) -> bool {
    &&& groups.len() == runs.len()
    &&& forall|k: int| 0 <= k < groups.len() ==> links_group_shows(#[trigger] groups[k], runs[k])
}

/// No two links that follow each other within a year have the same label.
pub open spec fn labels_alternate(groups: Seq<TimelineLinksGroup>) -> bool {
    forall|k: int, j: int|
        0 <= k < groups.len() && 0 <= j && j + 1 < groups[k].links@.len() ==> (
        #[trigger] groups[k].links@[j]).display_string@ != groups[k].links@[j + 1].display_string@
}

/// Where the run `k` ends, given where the runs start and how many
/// entries there are.
pub open spec fn run_end(starts: Seq<usize>, k: int, n: int) -> int {
    if k + 1 < starts.len() {
        starts[k + 1] as int
    } else {
        n
    }
}

/// `starts` holds the position at which each run of `runs` starts in
/// `entries`.
pub open spec fn starts_of(
    starts: Seq<usize>,
    entries: Seq<EntryView>,
    runs: Seq<Seq<EntryView>>,
) -> bool {
    &&& starts.len() == runs.len()
    &&& forall|k: int|
        0 <= k < starts.len() ==> {
            &&& (#[trigger] starts[k]) < run_end(starts, k, entries.len() as int) <= entries.len()
            &&& runs[k] == entries.subrange(
                starts[k] as int,
                run_end(starts, k, entries.len() as int),
            )
        }
}

/// Shows one entry.
pub fn timeline_video(entry: &TimelineEntry) -> (r: TimelineVideo)
    requires
        entry.date.wf(),
    ensures
        video_shows(r, entry@),
        r.blurb@.len() > 0,
{
    TimelineVideo {
        title: entry.title.clone(),
        video_id: entry.video_id.clone(),
        timestamp_display: display_date(entry.date),
        timestamp_rfc3339: entry.timestamp_rfc3339.clone(),
        blurb: filler(entry.date.day).to_owned(),
    }
}

/// Finds where each month's run starts.
pub fn month_starts(entries: &Vec<TimelineEntry>) -> (starts: Vec<usize>)
    ensures
        starts_of(starts@, views(entries@), month_runs(views(entries@))),
{
    let ghost all = views(entries@);
    let ghost key = month_key();
    let n = entries.len();
    let mut starts: Vec<usize> = Vec::new();
    let mut i: usize = 0;
    proof {
        assert(all.take(0) =~= Seq::<EntryView>::empty());
    }
    while i < n
        invariant
            i <= n == entries@.len(),
            all == views(entries@),
            key == month_key(),
            0 < i < n ==> key(all[i - 1]) != key(all[i as int]),
            starts_of(starts@, all.take(i as int), runs_by(all.take(i as int), key)),
        decreases n - i,
    {
        let from = i;
        let ghost before = starts@;
        starts.push(i);
        i = i + 1;
        while i < n && entries[i - 1].date.year == entries[i].date.year && entries[i
            - 1].date.month == entries[i].date.month
            invariant
                from < i <= n == entries@.len(),
                all == views(entries@),
                key == month_key(),
                forall|k: int| from < k < i ==> key(all[k - 1]) == key(#[trigger] all[k]),
            decreases n - i,
        {
            i = i + 1;
        }
        proof {
            lemma_next_run(all, key, from as int, i as int);
            let old_runs = runs_by(all.take(from as int), key);
            let new_runs = runs_by(all.take(i as int), key);
            let old_all = all.take(from as int);
            let new_all = all.take(i as int);
            assert(new_runs == old_runs.push(all.subrange(from as int, i as int)));
            assert forall|k: int| 0 <= k < starts@.len() implies {
                &&& (#[trigger] starts@[k]) < run_end(starts@, k, new_all.len() as int)
                    <= new_all.len()
                &&& new_runs[k] == new_all.subrange(
                    starts@[k] as int,
                    run_end(starts@, k, new_all.len() as int),
                )
            } by {
                if k < before.len() {
                    assert(starts@[k] == before[k]);
                    assert(run_end(starts@, k, new_all.len() as int) == run_end(
                        before,
                        k,
                        old_all.len() as int,
                    ));
                    assert(new_runs[k] == old_runs[k]);
                    assert(old_all.subrange(
                        before[k] as int,
                        run_end(before, k, old_all.len() as int),
                    ) =~= new_all.subrange(
                        before[k] as int,
                        run_end(before, k, old_all.len() as int),
                    ));
                } else {
                    assert(new_all.subrange(from as int, i as int) =~= all.subrange(
                        from as int,
                        i as int,
                    ));
                }
            }
        }
    }
    proof {
        assert(all.take(n as int) =~= all);
    }
    starts
}

/// Shows the entries `entries[from..to]`.
fn show_range(entries: &Vec<TimelineEntry>, from: usize, to: usize) -> (videos: Vec<TimelineVideo>)
    requires
        from <= to <= entries@.len(),
        all_wf(views(entries@)),
    ensures
        videos_show(videos@, views(entries@).subrange(from as int, to as int)),
{
    let mut videos: Vec<TimelineVideo> = Vec::new();
    let mut j: usize = from;
    while j < to
        invariant
            from <= j <= to <= entries@.len(),
            all_wf(views(entries@)),
            videos@.len() == j - from,
            forall|m: int|
                0 <= m < videos@.len() ==> video_shows(
                    #[trigger] videos@[m],
                    views(entries@)[from + m],
                ),
        decreases to - j,
    {
        proof {
            assert(views(entries@)[j as int].date.wf());
        }
        videos.push(timeline_video(&entries[j]));
        j = j + 1;
    }
    videos
}

/// The groups of the months hold every entry once: together they hold as
/// many videos as there are entries, and none of them is empty.
pub proof fn lemma_groups_hold_all(groups: Seq<TimelineGroup>, entries: Seq<EntryView>)
    requires
        groups_show(groups, month_runs(entries)),
    ensures
        total_videos(groups) == entries.len(),
        forall|k: int| 0 <= k < groups.len() ==> (#[trigger] groups[k]).videos@.len() > 0,
        concat_all(month_runs(entries)) == entries,
{
    lemma_total_videos(groups, month_runs(entries));
    lemma_runs(entries, month_key());
    assert forall|k: int| 0 <= k < groups.len() implies (#[trigger] groups[k]).videos@.len()
        > 0 by {
        assert(group_shows(groups[k], month_runs(entries)[k]));
    }
}

/// Grouping by month is stable. Laying the groups end to end and grouping
/// again gives the same groups; and entries that are already one to a
/// month are each a group of their own, so taking one entry per month a
/// second time changes nothing.
pub proof fn lemma_grouping_is_stable(entries: Seq<EntryView>)
    ensures
        month_runs(concat_all(month_runs(entries))) == month_runs(entries),
        month_runs(month_heads(entries)) == singletons(month_heads(entries)),
        month_heads(month_heads(entries)) == month_heads(entries),
{
    lemma_regroup(entries, month_key());
    lemma_heads_are_runs(entries, month_key());
}

/// The place of an entry's month in the sequence of all months.
pub open spec fn month_rank() -> spec_fn(EntryView) -> int {
    |e: EntryView| e.date.year * 12 + e.date.month
}

/// The place of an entry's year in the sequence of all years.
pub open spec fn year_rank() -> spec_fn(EntryView) -> int {
    |e: EntryView| e.date.year as int
}

/// The entries are in ascending order of month.
pub open spec fn sorted_by_month(entries: Seq<EntryView>) -> bool {
    forall|i: int, j: int|
        0 <= i <= j < entries.len() ==> month_rank()(entries[i]) <= month_rank()(entries[j])
}

/// On entries in ascending order of month the grouping is a partition by
/// month: no two groups are of the same month, and in the index no two
/// groups of links are of the same year.
pub proof fn lemma_one_group_per_month(entries: Seq<EntryView>)
    requires
        all_wf(entries),
        sorted_by_month(entries),
    ensures
        forall|a: int, b: int|
            0 <= a < b < month_runs(entries).len() ==> month_key()(
                #[trigger] month_runs(entries)[a][0],
            ) != month_key()(#[trigger] month_runs(entries)[b][0]),
        forall|a: int, b: int|
            0 <= a < b < year_runs(entries).len() ==> (#[trigger] year_runs(
                entries,
            )[a][0]).date.year != (#[trigger] year_runs(entries)[b][0]).date.year,
{
    assert forall|i: int, j: int| 0 <= i < entries.len() && 0 <= j < entries.len() implies (
    month_rank()(entries[i]) == month_rank()(entries[j])) == (month_key()(entries[i])
        == month_key()(entries[j])) by {
        assert(entries[i].date.wf() && entries[j].date.wf());
    }
    lemma_sorted_runs(entries, month_key(), month_rank());
    let runs = month_runs(entries);
    let months = month_heads(entries);
    assert forall|i: int| 0 <= i < months.len() implies (#[trigger] months[i]).date.wf() by {
        let k = choose|k: int| 0 <= k < entries.len() && entries[k] == runs[i][0];
        assert(entries[k].date.wf());
    }
    assert forall|i: int, j: int| 0 <= i <= j < months.len() implies year_rank()(months[i])
        <= year_rank()(months[j]) by {
        assert(months[i].date.wf() && months[j].date.wf());
        if i < j {
            assert(month_rank()(runs[i][0]) < month_rank()(runs[j][0]));
        }
    }
    lemma_sorted_runs(months, year_key(), year_rank());
}

/// Adding a group adds its videos to the count.
proof fn lemma_total_videos(groups: Seq<TimelineGroup>, runs: Seq<Seq<EntryView>>)
    requires
        groups_show(groups, runs),
    ensures
        total_videos(groups) == total_len(runs),
    decreases groups.len(),
{
    if groups.len() > 0 {
        assert forall|k: int| 0 <= k < groups.drop_last().len() implies group_shows(
            #[trigger] groups.drop_last()[k],
            runs.drop_last()[k],
        ) by {
            assert(groups.drop_last()[k] == groups[k]);
            assert(group_shows(groups[k], runs[k]));
        }
        lemma_total_videos(groups.drop_last(), runs.drop_last());
        assert(group_shows(groups[groups.len() - 1], runs[groups.len() - 1]));
    }
}

/// Groups the entries by month.
///
/// There is one group for each run of entries of the same year and month,
/// in order; it carries the month's anchor and heading and shows the run's
/// entries in their order. The groups hold as many videos as there are
/// entries.
pub fn group_by_month(entries: &Vec<TimelineEntry>) -> (groups: Vec<TimelineGroup>)
    requires
        all_wf(views(entries@)),
    ensures
        groups_show(groups@, month_runs(views(entries@))),
        total_videos(groups@) == entries@.len(),
{
    let starts = month_starts(entries);
    let ghost all = views(entries@);
    let ghost runs = month_runs(all);
    let n = entries.len();
    let mut groups: Vec<TimelineGroup> = Vec::new();
    let mut k: usize = 0;
    while k < starts.len()
        invariant
            k <= starts@.len(),
            n == entries@.len(),
            all == views(entries@),
            runs == month_runs(all),
            all_wf(all),
            starts_of(starts@, all, runs),
            groups@.len() == k,
            forall|g: int| 0 <= g < k ==> group_shows(#[trigger] groups@[g], runs[g]),
        decreases starts@.len() - k,
    {
        let from = starts[k];
        let to = if k + 1 < starts.len() {
            starts[k + 1]
        } else {
            n
        };
        proof {
            assert(to == run_end(starts@, k as int, all.len() as int));
            assert(runs[k as int] == all.subrange(from as int, to as int));
            assert(all[from as int].date.wf());
        }
        let date = entries[from].date;
        let group = TimelineGroup {
            group_id: group_id(date),
            group_name: group_name(date),
            videos: show_range(entries, from, to),
        };
        groups.push(group);
        k = k + 1;
    }
    proof {
        lemma_total_videos(groups@, runs);
        lemma_runs(all, month_key());
    }
    groups
}

/// Builds the links to the months `entries[starts[from]]` up to
/// `entries[starts[to - 1]]`.
fn link_range(entries: &Vec<TimelineEntry>, starts: &Vec<usize>, from: usize, to: usize) -> (links:
    Vec<TimelineLink>)
    requires
        from <= to <= starts@.len(),
        all_wf(views(entries@)),
        forall|k: int| 0 <= k < starts@.len() ==> #[trigger] starts@[k] < entries@.len(),
    ensures
        links@.len() == to - from,
        forall|m: int|
            0 <= m < links@.len() ==> link_shows(
                #[trigger] links@[m],
                views(entries@)[starts@[from + m] as int],
            ),
{
    let mut links: Vec<TimelineLink> = Vec::new();
    let mut j: usize = from;
    while j < to
        invariant
            from <= j <= to <= starts@.len(),
            all_wf(views(entries@)),
            forall|k: int| 0 <= k < starts@.len() ==> #[trigger] starts@[k] < entries@.len(),
            links@.len() == j - from,
            forall|m: int|
                0 <= m < links@.len() ==> link_shows(
                    #[trigger] links@[m],
                    views(entries@)[starts@[from + m] as int],
                ),
        decreases to - j,
    {
        let at = starts[j];
        proof {
            assert(views(entries@)[at as int].date.wf());
        }
        let date = entries[at].date;
        links.push(
            TimelineLink {
                display_string: month_label(date.month).to_owned(),
                link_id: group_id(date),
            },
        );
        j = j + 1;
    }
    links
}

/// Within a run of months of one year, links that follow each other have
/// different labels, because months that follow each other differ.
proof fn lemma_labels_in_year(links: Seq<TimelineLink>, run: Seq<EntryView>)
    requires
        links.len() == run.len(),
        forall|j: int| 0 <= j < run.len() ==> link_shows(#[trigger] links[j], run[j]),
        forall|j: int| 0 <= j < run.len() ==> (#[trigger] run[j]).date.wf(),
        forall|j: int| 0 <= j < run.len() ==> (#[trigger] run[j]).date.year == run[0].date.year,
        forall|j: int|
            0 <= j && j + 1 < run.len() ==> month_key()(#[trigger] run[j]) != month_key()(
                run[j + 1],
            ),
    ensures
        forall|j: int|
            0 <= j && j + 1 < links.len() ==> (#[trigger] links[j]).display_string@ != links[j
                + 1].display_string@,
{
    assert forall|j: int| 0 <= j && j + 1 < links.len() implies (
    #[trigger] links[j]).display_string@ != links[j + 1].display_string@ by {
        let a = run[j];
        let b = run[j + 1];
        assert(link_shows(links[j], a));
        assert(link_shows(links[j + 1], b));
        assert(a.date.wf() && b.date.wf());
        assert(a.date.year == run[0].date.year && b.date.year == run[0].date.year);
        assert(month_key()(a) != month_key()(b));
        lemma_month_labels_differ(a.date.month as int, b.date.month as int);
    }
}

/// Adding the group of the next run keeps the index in step with the runs.
proof fn lemma_push_link_group(
    before: Seq<TimelineLinksGroup>,
    group: TimelineLinksGroup,
    runs: Seq<Seq<EntryView>>,
    run: Seq<EntryView>,
)
    requires
        link_groups_show(before, runs),
        labels_alternate(before),
        links_group_shows(group, run),
        forall|j: int|
            0 <= j && j + 1 < group.links@.len() ==> (#[trigger] group.links@[j]).display_string@
                != group.links@[j + 1].display_string@,
    ensures
        link_groups_show(before.push(group), runs.push(run)),
        labels_alternate(before.push(group)),
{
    let after = before.push(group);
    assert forall|k: int| 0 <= k < after.len() implies links_group_shows(
        #[trigger] after[k],
        runs.push(run)[k],
    ) by {
        if k < before.len() {
            assert(after[k] == before[k]);
            assert(links_group_shows(before[k], runs[k]));
        }
    }
    assert forall|k: int, j: int|
        0 <= k < after.len() && 0 <= j && j + 1 < after[k].links@.len() implies (
    #[trigger] after[k].links@[j]).display_string@ != after[k].links@[j + 1].display_string@ by {
        if k < before.len() {
            assert(after[k] == before[k]);
            assert(before[k].links@[j].display_string@ != before[k].links@[j + 1].display_string@);
        } else {
            assert(after[k] == group);
        }
    }
}

/// Builds the index of months by year.
///
/// There is one group of links for each run of months of the same year, in
/// order, where the months are those of [`month_runs`]: entries of the same
/// month that follow each other give one link. A link carries the month's
/// label and the anchor of the month's group. Within a year no two links
/// that follow each other have the same label.
pub fn link_index(entries: &Vec<TimelineEntry>) -> (index: Vec<TimelineLinksGroup>)
    requires
        all_wf(views(entries@)),
    ensures
        link_groups_show(index@, year_runs(views(entries@))),
        labels_alternate(index@),
{
    let starts = month_starts(entries);
    let ghost all = views(entries@);
    let ghost months = month_heads(all);
    let ghost key = year_key();
    let count = starts.len();
    let mut index: Vec<TimelineLinksGroup> = Vec::new();
    let mut i: usize = 0;
    proof {
        lemma_runs(all, month_key());
        lemma_heads_are_runs(all, month_key());
        assert(months.len() == count);
        assert forall|k: int| 0 <= k < count implies #[trigger] starts@[k] < entries@.len()
            && months[k] == all[starts@[k] as int] by {
            assert(month_runs(all)[k] == all.subrange(
                starts@[k] as int,
                run_end(starts@, k, all.len() as int),
            ));
        }
        assert(months.take(0) =~= Seq::<EntryView>::empty());
    }
    while i < count
        invariant
            i <= count == starts@.len(),
            all == views(entries@),
            all_wf(all),
            months.len() == count,
            key == year_key(),
            forall|k: int|
                0 <= k < count ==> #[trigger] starts@[k] < entries@.len() && months[k]
                    == all[starts@[k] as int],
            forall|k: int|
                0 <= k && k + 1 < count ==> month_key()(#[trigger] months[k]) != month_key()(
                    months[k + 1],
                ),
            0 < i < count ==> key(months[i - 1]) != key(months[i as int]),
            link_groups_show(index@, runs_by(months.take(i as int), key)),
            labels_alternate(index@),
        decreases count - i,
    {
        let from = i;
        let year = entries[starts[from]].date.year;
        i = i + 1;
        while i < count && entries[starts[i]].date.year == year
            invariant
                from < i <= count == starts@.len(),
                all == views(entries@),
                months.len() == count,
                year == months[from as int].date.year,
                forall|k: int|
                    0 <= k < count ==> #[trigger] starts@[k] < entries@.len() && months[k]
                        == all[starts@[k] as int],
                forall|k: int| from <= k < i ==> (#[trigger] months[k]).date.year == year,
            decreases count - i,
        {
            proof {
                assert(starts@[i as int] < entries@.len());
            }
            i = i + 1;
        }
        let links = link_range(entries, &starts, from, i);
        let ghost before = index@;
        let group = TimelineLinksGroup { year, links };
        proof {
            let run = months.subrange(from as int, i as int);
            assert forall|k: int| from < k < i implies key(months[k - 1]) == key(
                #[trigger] months[k],
            ) by {
                assert(months[k - 1].date.year == year);
            }
            if i < count {
                assert(starts@[i as int] < entries@.len());
                assert(months[i - 1].date.year == year);
            }
            lemma_next_run(months, key, from as int, i as int);
            assert forall|j: int| 0 <= j < run.len() implies link_shows(
                #[trigger] group.links@[j],
                run[j],
            ) && run[j].date.wf() && run[j].date.year == run[0].date.year by {
                assert(starts@[from + j] < entries@.len());
                assert(run[j] == months[from + j]);
                assert(run[0] == months[from as int]);
                assert(all[starts@[from + j] as int].date.wf());
            }
            assert forall|j: int| 0 <= j && j + 1 < run.len() implies month_key()(
                #[trigger] run[j],
            ) != month_key()(run[j + 1]) by {
                assert(run[j] == months[from + j]);
                assert(run[j + 1] == months[from + j + 1]);
            }
            assert(run[0] == months[from as int]);
            assert forall|j: int| 0 <= j < run.len() implies (#[trigger] run[j]).date.wf()
                && run[j].date.year == run[0].date.year by {
                assert(starts@[from + j] < entries@.len());
                assert(run[j] == months[from + j]);
                assert(all[starts@[from + j] as int].date.wf());
            }
            lemma_labels_in_year(group.links@, run);
            lemma_push_link_group(before, group, runs_by(months.take(from as int), key), run);
        }
        index.push(group);
    }
    proof {
        assert(months.take(count as int) =~= months);
    }
    index
}

/// The entry of a video, if its release instant has a date and an RFC 3339
/// text.
pub open spec fn entry_of(video: VideoInfo) -> Option<EntryView> {
    match (date_of(video.release_timestamp), utc_rfc3339(video.release_timestamp)) {
        (Some(date), Some(text)) => Some(
            EntryView {
                title: video.title@,
                video_id: video.id@,
                date,
                timestamp_rfc3339: text,
            },
        ),
        _ => None,
    }
}

/// Dates a video.
///
/// Succeeds exactly when the release instant has a date and an RFC 3339
/// text; the error carries the instant.
pub fn date_entry(video: &VideoInfo) -> (r: Result<TimelineEntry, DataError>)
    ensures
        match r {
            Ok(entry) => entry_of(*video) == Some(entry@) && entry.date.wf(),
            Err(e) => entry_of(*video) is None && e == (DataError::Timestamp {
                timestamp: video.release_timestamp,
            }),
        },
{
    let date = match civil_date(video.release_timestamp) {
        Some(date) => date,
        None => {
            return Err(DataError::Timestamp { timestamp: video.release_timestamp });
        },
    };
    let text = match rfc3339_from_unix(video.release_timestamp) {
        Some(text) => text,
        None => {
            return Err(DataError::Timestamp { timestamp: video.release_timestamp });
        },
    };
    Ok(
        TimelineEntry {
            title: video.title.clone(),
            video_id: video.id.clone(),
            date,
            timestamp_rfc3339: text,
        },
    )
}

/// The videos that the site lists, in order.
pub open spec fn listed_videos(videos: Seq<VideoInfo>) -> Seq<VideoInfo> {
    videos.filter(|v: VideoInfo| listed(v))
}

/// `entries` are the entries of `videos`, one for one and in order.
pub open spec fn entries_of(entries: Seq<EntryView>, videos: Seq<VideoInfo>) -> bool {
    &&& entries.len() == videos.len()
    &&& forall|i: int| 0 <= i < videos.len() ==> entry_of(videos[i]) == Some(#[trigger] entries[i])
}

/// `k` is the position of the first video of `videos` without an entry.
pub open spec fn first_without_entry(videos: Seq<VideoInfo>, k: int) -> bool {
    &&& 0 <= k < videos.len()
    &&& entry_of(videos[k]) is None
    &&& forall|j: int| 0 <= j < k ==> entry_of(#[trigger] videos[j]) is Some
}

/// Dates the listed videos of a catalog.
///
/// Succeeds exactly when every listed video has an entry, and then returns
/// the entries of the listed videos in the catalog's order. Otherwise the
/// error carries the release instant of the first listed video without one.
pub fn timeline_entries(videos: &Vec<VideoInfo>) -> (r: Result<Vec<TimelineEntry>, DataError>)
    ensures
        match r {
            Ok(entries) => entries_of(views(entries@), listed_videos(videos@)) && all_wf(
                views(entries@),
            ),
            Err(e) => exists|k: int|
                first_without_entry(listed_videos(videos@), k) && e == (DataError::Timestamp {
                    timestamp: (#[trigger] listed_videos(videos@)[k]).release_timestamp,
                }),
        },
{
    let mut entries: Vec<TimelineEntry> = Vec::new();
    let mut i: usize = 0;
    proof {
        reveal(Seq::filter);
        assert(videos@.take(0) =~= Seq::<VideoInfo>::empty());
    }
    while i < videos.len()
        invariant
            i <= videos@.len(),
            entries_of(views(entries@), listed_videos(videos@.take(i as int))),
            all_wf(views(entries@)),
        decreases videos@.len() - i,
    {
        let ghost done = listed_videos(videos@.take(i as int));
        let ghost old_entries = views(entries@);
        proof {
            reveal(Seq::filter);
            assert(videos@.take(i + 1).drop_last() =~= videos@.take(i as int));
            assert(videos@.take(i + 1).last() == videos@[i as int]);
        }
        if is_listed(&videos[i]) {
            match date_entry(&videos[i]) {
                Ok(entry) => {
                    entries.push(entry);
                    proof {
                        let now = listed_videos(videos@.take(i + 1));
                        assert(now == done.push(videos@[i as int]));
                        assert forall|m: int| 0 <= m < now.len() implies entry_of(now[m]) == Some(
                            #[trigger] views(entries@)[m],
                        ) by {
                            if m < done.len() {
                                assert(views(entries@)[m] == old_entries[m]);
                            }
                        }
                        assert forall|m: int| 0 <= m < views(entries@).len() implies (
                        #[trigger] views(entries@)[m]).date.wf() by {
                            if m < old_entries.len() {
                                assert(views(entries@)[m] == old_entries[m]);
                            }
                        }
                    }
                },
                Err(e) => {
                    proof {
                        let whole = listed_videos(videos@);
                        let k = done.len() as int;
                        let now = listed_videos(videos@.take(i + 1));
                        lemma_listed_prefix(videos@, i + 1);
                        assert(now == done.push(videos@[i as int]));
                        assert(now == whole.take(now.len() as int));
                        assert(whole[k] == now[k]);
                        assert forall|j: int| 0 <= j < k implies entry_of(
                            #[trigger] whole[j],
                        ) is Some by {
                            assert(whole[j] == now[j]);
                            assert(now[j] == done[j]);
                            assert(entry_of(done[j]) == Some(old_entries[j]));
                        }
                        assert(first_without_entry(whole, k));
                    }
                    return Err(e);
                },
            }
        }
        i = i + 1;
    }
    proof {
        assert(videos@.take(videos@.len() as int) =~= videos@);
    }
    Ok(entries)
}

/// The listed videos of a prefix of a catalog are a prefix of the
/// catalog's listed videos.
pub proof fn lemma_listed_prefix(videos: Seq<VideoInfo>, i: int)
    requires
        0 <= i <= videos.len(),
    ensures
        listed_videos(videos.take(i)).len() <= listed_videos(videos).len(),
        listed_videos(videos.take(i)) == listed_videos(videos).take(
            listed_videos(videos.take(i)).len() as int,
        ),
    decreases videos.len() - i,
{
    reveal(Seq::filter);
    if i == videos.len() {
        assert(videos.take(i) =~= videos);
        assert(listed_videos(videos).take(listed_videos(videos).len() as int) =~= listed_videos(
            videos,
        ));
    } else {
        lemma_listed_prefix(videos, i + 1);
        assert(videos.take(i + 1).drop_last() =~= videos.take(i));
        let longer = listed_videos(videos.take(i + 1));
        let shorter = listed_videos(videos.take(i));
        assert(shorter =~= listed_videos(videos).take(shorter.len() as int)) by {
            if listed(videos.take(i + 1).last()) {
                assert(longer == shorter.push(videos.take(i + 1).last()));
                assert(shorter =~= longer.take(shorter.len() as int));
            } else {
                assert(longer == shorter);
            }
        }
    }
}

/// `timeline` is the timeline of `entries`: its groups are those of the
/// months, its index that of the years, the groups hold every entry once,
/// and no two links that follow each other within a year have the same
/// label.
pub open spec fn timeline_shows(timeline: Timeline, entries: Seq<EntryView>) -> bool {
    &&& groups_show(timeline.groups@, month_runs(entries))
    &&& total_videos(timeline.groups@) == entries.len()
    &&& link_groups_show(timeline.links@, year_runs(entries))
    &&& labels_alternate(timeline.links@)
}

/// Builds the timeline of dated entries.
pub fn timeline_of(entries: &Vec<TimelineEntry>) -> (timeline: Timeline)
    requires
        all_wf(views(entries@)),
    ensures
        timeline_shows(timeline, views(entries@)),
{
    Timeline { groups: group_by_month(entries), links: link_index(entries) }
}

/// Builds the timeline of a catalog.
///
/// Succeeds exactly when every listed video has an entry. The timeline is
/// then that of the entries of the listed videos, so its groups hold as
/// many videos as the catalog lists. Otherwise the error carries the
/// release instant of the first listed video without an entry, and nothing
/// of the timeline is returned.
pub fn timeline_view(videos: &Vec<VideoInfo>) -> (r: Result<Timeline, DataError>)
    ensures
        match r {
            Ok(timeline) => {
                &&& total_videos(timeline.groups@) == listed_videos(videos@).len()
                &&& exists|entries: Seq<EntryView>|
                    entries_of(entries, listed_videos(videos@)) && #[trigger] timeline_shows(
                        timeline,
                        entries,
                    )
            },
            Err(e) => exists|k: int|
                first_without_entry(listed_videos(videos@), k) && e == (DataError::Timestamp {
                    timestamp: (#[trigger] listed_videos(videos@)[k]).release_timestamp,
                }),
        },
{
    match timeline_entries(videos) {
        Ok(entries) => {
            let timeline = timeline_of(&entries);
            proof {
                let shown = views(entries@);
                assert(timeline_shows(timeline, shown));
                assert(entries_of(shown, listed_videos(videos@)));
                assert(total_videos(timeline.groups@) == shown.len());
                assert(total_videos(timeline.groups@) == listed_videos(videos@).len());
                assert(exists|entries: Seq<EntryView>|
                    entries_of(entries, listed_videos(videos@)) && #[trigger] timeline_shows(
                        timeline,
                        entries,
                    ));
            }
            Ok(timeline)
        },
        Err(e) => Err(e),
    }
}

} // verus!
