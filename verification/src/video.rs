//! The video catalog: its records and which of them the site lists.

use vstd::prelude::*;
use crate::calendar::{civil_date, date_of};

verus! {

/// A video of the catalog.
#[derive(Clone, Debug, PartialEq, Eq)]
pub struct VideoInfo {
    pub id: String,
    pub title: String,
    /// The release instant, in seconds after the Unix epoch.
    pub release_timestamp: i64,
    pub was_live: bool,
    pub playable_in_embed: bool,
    pub availability: String,
}

/// Why a source of data cannot be used.
#[derive(Clone, Copy, Debug, PartialEq, Eq, Structural)]
pub enum DataError {
    /// A record's release instant is not one that the calendar can
    /// represent and format.
    Timestamp { timestamp: i64 },
}

/// The site lists a video when it can be embedded and is public.
pub open spec fn listed(video: VideoInfo) -> bool {
    video.playable_in_embed && video.availability@ == "public"@
}

/// Tests whether the site lists a video.
pub fn is_listed(video: &VideoInfo) -> (r: bool)
    ensures
        r == listed(*video),
{
    video.playable_in_embed && video.availability.as_str().eq("public")
}

/// The release instants of `videos` are in ascending order.
pub open spec fn sorted_by_release(videos: Seq<VideoInfo>) -> bool {
    forall|i: int, j: int|
        0 <= i <= j < videos.len() ==> videos[i].release_timestamp <= videos[j].release_timestamp
}

/// The videos of `videos` released at the instant `timestamp`, in order.
pub open spec fn released_at(videos: Seq<VideoInfo>, timestamp: i64) -> Seq<VideoInfo> {
    videos.filter(|v: VideoInfo| v.release_timestamp == timestamp)
}

/// `k` is the position of the first video of `videos` whose release
/// instant has no date.
pub open spec fn first_undated(videos: Seq<VideoInfo>, k: int) -> bool {
    &&& 0 <= k < videos.len()
    &&& date_of(videos[k].release_timestamp) is None
    &&& forall|j: int| 0 <= j < k ==> date_of(#[trigger] videos[j].release_timestamp) is Some
}

/// Checks that every record's release instant has a date.
///
/// The error carries the instant of the first record that has none.
pub fn check_timestamps(videos: &Vec<VideoInfo>) -> (r: Result<(), DataError>)
    ensures
        match r {
            Ok(()) => forall|i: int|
                0 <= i < videos@.len() ==> date_of(#[trigger] videos@[i].release_timestamp) is Some,
            Err(e) => exists|k: int|
                first_undated(videos@, k) && e == (DataError::Timestamp {
                    timestamp: #[trigger] videos@[k].release_timestamp,
                }),
        },
{
    let mut i: usize = 0;
    while i < videos.len()
        invariant
            i <= videos@.len(),
            forall|j: int| 0 <= j < i ==> date_of(#[trigger] videos@[j].release_timestamp) is Some,
        decreases videos@.len() - i,
    {
        let timestamp = videos[i].release_timestamp;
        if civil_date(timestamp).is_none() {
            proof {
                assert(first_undated(videos@, i as int));
            }
            return Err(DataError::Timestamp { timestamp });
        }
        i = i + 1;
    }
    Ok(())
}

/// Filtering a sequence of which no element passes leaves nothing.
proof fn lemma_filter_none<A>(s: Seq<A>, pred: spec_fn(A) -> bool)
    requires
        forall|i: int| 0 <= i < s.len() ==> !pred(#[trigger] s[i]),
    ensures
        s.filter(pred) == Seq::<A>::empty(),
    decreases s.len(),
{
    reveal(Seq::filter);
    if s.len() > 0 {
        assert forall|i: int| 0 <= i < s.drop_last().len() implies !pred(
            #[trigger] s.drop_last()[i],
        ) by {
            assert(s.drop_last()[i] == s[i]);
        }
        lemma_filter_none(s.drop_last(), pred);
        assert(!pred(s[s.len() - 1]));
    }
}

/// Putting `x` into a sorted sequence after everything released before it
/// and before everything else keeps the sequence sorted, and is, for the
/// videos of each release instant, the same as putting `x` in front.
proof fn lemma_insert_in_order(out: Seq<VideoInfo>, pos: int, x: VideoInfo, tail: Seq<VideoInfo>)
    requires
        0 <= pos <= out.len(),
        sorted_by_release(out),
        forall|i: int| 0 <= i < pos ==> (#[trigger] out[i]).release_timestamp < x.release_timestamp,
        forall|i: int|
            pos <= i < out.len() ==> (#[trigger] out[i]).release_timestamp >= x.release_timestamp,
        forall|t: i64| released_at(out, t) == released_at(tail, t),
        out.to_multiset() == tail.to_multiset(),
    ensures
        sorted_by_release(out.insert(pos, x)),
        forall|t: i64| released_at(out.insert(pos, x), t) == released_at(seq![x] + tail, t),
        out.insert(pos, x).to_multiset() == (seq![x] + tail).to_multiset(),
{
    let grown = out.insert(pos, x);
    assert(grown.to_multiset() =~= (seq![x] + tail).to_multiset()) by {
        let other = seq![x] + tail;
        assert(grown.remove(pos) =~= out);
        assert(other.remove(0) =~= tail);
        assert(grown[pos] == x && other[0] == x);
        vstd::seq_lib::to_multiset_remove(grown, pos);
        vstd::seq_lib::to_multiset_remove(other, 0);
        grown.to_multiset_ensures();
        other.to_multiset_ensures();
        assert(grown.contains(x));
        assert(other.contains(x));
        assert forall|v: VideoInfo| grown.to_multiset().count(v) == other.to_multiset().count(
            v,
        ) by {
            assert(grown.to_multiset().remove(x).count(v) == other.to_multiset().remove(x).count(
                v,
            ));
        }
    }
    assert forall|i: int, j: int| 0 <= i <= j < grown.len() implies grown[i].release_timestamp
        <= grown[j].release_timestamp by {
        if i < pos {
            assert(grown[i] == out[i]);
        } else if i > pos {
            assert(grown[i] == out[i - 1]);
        }
        if j < pos {
            assert(grown[j] == out[j]);
        } else if j > pos {
            assert(grown[j] == out[j - 1]);
        }
    }
    assert forall|t: i64| released_at(grown, t) == released_at(seq![x] + tail, t) by {
        let pred = |v: VideoInfo| v.release_timestamp == t;
        let front = out.take(pos);
        let back = out.skip(pos);
        assert(grown =~= front + seq![x] + back);
        assert(out =~= front + back);
        Seq::filter_distributes_over_add(front + seq![x], back, pred);
        Seq::filter_distributes_over_add(front, seq![x], pred);
        Seq::filter_distributes_over_add(front, back, pred);
        Seq::filter_distributes_over_add(seq![x], tail, pred);
        assert(released_at(out, t) == released_at(tail, t));
        if x.release_timestamp == t {
            assert forall|i: int| 0 <= i < front.len() implies !pred(#[trigger] front[i]) by {
                assert(front[i] == out[i]);
            }
            lemma_filter_none(front, pred);
            assert(Seq::<VideoInfo>::empty() + seq![x].filter(pred) =~= seq![x].filter(pred));
            assert(front.filter(pred) + back.filter(pred) =~= back.filter(pred));
        } else {
            assert forall|i: int| 0 <= i < seq![x].len() implies !pred(#[trigger] seq![x][i]) by {
            }
            lemma_filter_none(seq![x], pred);
            assert(front.filter(pred) + Seq::<VideoInfo>::empty() =~= front.filter(pred));
            assert(Seq::<VideoInfo>::empty() + tail.filter(pred) =~= tail.filter(pred));
        }
    }
}

/// Sorts a catalog by release instant.
///
/// The result is in ascending order of release instant and holds, for each
/// instant, the videos released then in the order in which the catalog had
/// them: the sort is stable. The result holds the same videos as the
/// catalog, each as often.
pub fn sort_by_release(videos: Vec<VideoInfo>) -> (sorted: Vec<VideoInfo>)
    ensures
        sorted_by_release(sorted@),
        sorted@.len() == videos@.len(),
        sorted@.to_multiset() == videos@.to_multiset(),
        forall|t: i64| released_at(sorted@, t) == released_at(videos@, t),
{
    let mut rest = videos;
    let mut out: Vec<VideoInfo> = Vec::new();
    proof {
        assert(videos@.skip(videos@.len() as int) =~= Seq::<VideoInfo>::empty());
    }
    loop
        invariant
            rest@.len() <= videos@.len(),
            rest@ == videos@.take(rest@.len() as int),
            out@.len() == videos@.len() - rest@.len(),
            sorted_by_release(out@),
            forall|t: i64|
                released_at(out@, t) == released_at(videos@.skip(rest@.len() as int), t),
            out@.to_multiset() == videos@.skip(rest@.len() as int).to_multiset(),
        ensures
            rest@.len() == 0,
        decreases rest@.len(),
    {
        let ghost tail = videos@.skip(rest@.len() as int);
        let x = match rest.pop() {
            Some(x) => x,
            None => {
                break;
            },
        };
        let mut pos: usize = 0;
        while pos < out.len() && out[pos].release_timestamp < x.release_timestamp
            invariant
                pos <= out@.len(),
                sorted_by_release(out@),
                forall|i: int|
                    0 <= i < pos ==> (#[trigger] out@[i]).release_timestamp < x.release_timestamp,
            decreases out@.len() - pos,
        {
            pos = pos + 1;
        }
        proof {
            assert forall|i: int| pos <= i < out@.len() implies (
            #[trigger] out@[i]).release_timestamp >= x.release_timestamp by {
                assert(out@[pos as int].release_timestamp <= out@[i].release_timestamp);
            }
            lemma_insert_in_order(out@, pos as int, x, tail);
            assert(x == videos@[rest@.len() as int]);
            assert(seq![x] + tail =~= videos@.skip(rest@.len() as int));
            assert(rest@ =~= videos@.take(rest@.len() as int));
        }
        out.insert(pos, x);
    }
    proof {
        assert(videos@.skip(0) =~= videos@);
    }
    out
}

/// Prepares a catalog as loaded for the site: checks the release instants
/// and sorts by them.
///
/// Succeeds exactly when every release instant has a date, and then returns
/// the catalog sorted as [`sort_by_release`] does. Otherwise the error
/// carries the instant of the first record without a date.
pub fn prepare_videos(videos: Vec<VideoInfo>) -> (r: Result<Vec<VideoInfo>, DataError>)
    ensures
        match r {
            Ok(sorted) => {
                &&& forall|i: int|
                    0 <= i < videos@.len() ==> date_of(
                        #[trigger] videos@[i].release_timestamp,
                    ) is Some
                &&& sorted_by_release(sorted@)
                &&& sorted@.len() == videos@.len()
                &&& sorted@.to_multiset() == videos@.to_multiset()
                &&& forall|t: i64| released_at(sorted@, t) == released_at(videos@, t)
            },
            Err(e) => exists|k: int|
                first_undated(videos@, k) && e == (DataError::Timestamp {
                    timestamp: #[trigger] videos@[k].release_timestamp,
                }),
        },
{
    match check_timestamps(&videos) {
        Ok(()) => Ok(sort_by_release(videos)),
        Err(e) => Err(e),
    }
}

} // verus!
