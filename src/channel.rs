use vstd::prelude::*;
use crate::automation::{Automation, ConfigError, HitRegister};
use crate::utils::{find_index_through, is_sorted, in_time, keys, lemma_seek_index_unique, seek_index, sorted};

verus! {

/// One channel's slot in the output table: its value this tick, and the
/// channel whose value should stand in for it.
#[derive(Clone, Copy, Debug)]
pub struct ChannelOutput {
    pub output: Option<i64>,
    pub redirect: Option<usize>,
}

impl ChannelOutput {
    /// An empty slot.
    pub fn new() -> (r: Self)
        ensures
            r.output.is_none() && r.redirect.is_none(),
    {
        ChannelOutput { output: None, redirect: None }
    }
}

/// An independently evaluated output stream: clips in ascending order of start.
#[derive(Debug)]
pub struct Channel {
    pub id: u8,
    pub clips: Vec<Automation>,
}

/// The index of the clip a channel last evaluated.
#[derive(Clone, Copy, Debug)]
pub struct IndexCache(pub usize);

/// The slot a clip's result goes to.
pub open spec fn slot_of(r: (Option<u8>, Option<i64>)) -> ChannelOutput {
    ChannelOutput {
        output: r.1,
        redirect: match r.0 {
            Some(c) => Some(c as usize),
            None => None,
        },
    }
}

impl Channel {
    pub open spec fn wf(self) -> bool {
        &&& sorted(keys(self.clips@))
        &&& forall|i: int| 0 <= i < self.clips@.len() ==> (#[trigger] self.clips@[i]).wf()
    }

    /// Checks every clip, then the order of the clips; the first problem found
    /// is returned.
    pub fn validate(&self) -> (r: Result<(), ConfigError>)
        ensures
            r.is_ok() <==> self.wf(),
            forall|i: int|
                0 <= i < self.clips@.len() && !(#[trigger] self.clips@[i]).wf() && (forall|j: int|
                    0 <= j < i ==> self.clips@[j].wf()) ==> r == self.clips@[i].check_spec(),
            (forall|i: int| 0 <= i < self.clips@.len() ==> (#[trigger] self.clips@[i]).wf())
                && !sorted(keys(self.clips@)) ==> r == Err::<(), ConfigError>(
                ConfigError::Unsorted,
            ),
    {
        let mut i: usize = 0;
        while i < self.clips.len()
            invariant
                i <= self.clips@.len(),
                forall|j: int| 0 <= j < i ==> (#[trigger] self.clips@[j]).wf(),
            decreases self.clips@.len() - i,
        {
            match self.clips[i].validate() {
                Ok(()) => {},
                Err(e) => {
                    proof {
                        assert forall|m: int|
                            0 <= m < self.clips@.len() && !(#[trigger] self.clips@[m]).wf() && (
                            forall|j: int| 0 <= j < m ==> self.clips@[j].wf()) implies m == i by {
                            if m > i {
                                assert(self.clips@[i as int].wf());
                            }
                        }
                    }
                    return Err(e);
                },
            }
            i = i + 1;
        }
        if is_sorted(self.clips.as_slice()) {
            Ok(())
        } else {
            Err(ConfigError::Unsorted)
        }
    }

    /// The clip that plays at `song_time`: the last one started by then, or
    /// the first where none has.
    pub open spec fn clip_at(self, song_time: int) -> int {
        seek_index(keys(self.clips@), song_time)
    }

    /// Whether seeking can be left out: the channel has no clips, or the cache
    /// already holds its last clip and that clip has started.
    pub fn can_skip_seeking(&self, cache: &IndexCache, song_time: i64) -> (r: bool)
        requires
            self.wf(),
        ensures
            r <==> (self.clips@.len() == 0 || (cache.0 + 1 == self.clips@.len()
                && self.clips@[cache.0 as int].start <= song_time)),
            r && self.clips@.len() > 0 ==> cache.0 as int == self.clip_at(song_time as int),
    {
        let n = self.clips.len();
        if n == 0 {
            return true;
        }
        let skip = cache.0 == n - 1 && self.clips[n - 1].start <= song_time;
        proof {
            if skip {
                lemma_seek_index_unique(keys(self.clips@), song_time as int, cache.0 as int);
            }
        }
        skip
    }
}

/// The seek phase: points each non-empty channel's cache at the clip that
/// plays at `song_time`. The caches of empty channels are left alone.
pub fn seek_channels(channels: &Vec<Channel>, caches: &mut Vec<IndexCache>, song_time: i64)
    requires
        old(caches)@.len() == channels@.len(),
        forall|k: int| 0 <= k < channels@.len() ==> (#[trigger] channels@[k]).wf(),
    ensures
        final(caches)@.len() == channels@.len(),
        forall|k: int|
            0 <= k < channels@.len() ==> if (#[trigger] channels@[k]).clips@.len() == 0 {
                final(caches)@[k] == old(caches)@[k]
            } else {
                final(caches)@[k].0 as int == channels@[k].clip_at(song_time as int)
            },
{
    let n = channels.len();
    let mut k: usize = 0;
    while k < n
        invariant
            n == channels@.len(),
            caches@.len() == n,
            k <= n,
            forall|j: int| 0 <= j < n ==> (#[trigger] channels@[j]).wf(),
            forall|j: int|
                k <= j < n ==> #[trigger] caches@[j] == old(caches)@[j],
            forall|j: int|
                0 <= j < k ==> if (#[trigger] channels@[j]).clips@.len() == 0 {
                    caches@[j] == old(caches)@[j]
                } else {
                    caches@[j].0 as int == channels@[j].clip_at(song_time as int)
                },
        decreases n - k,
    {
        let channel = &channels[k];
        if !channel.can_skip_seeking(&caches[k], song_time) {
            let index = find_index_through(channel.clips.as_slice(), song_time, caches[k].0);
            caches[k] = IndexCache(index);
        }
        k = k + 1;
    }
}

/// Channel ids are distinct and each names a slot of a table of `slots` entries.
pub open spec fn ids_wf(channels: Seq<Channel>, slots: int) -> bool {
    &&& forall|k: int| 0 <= k < channels.len() ==> (#[trigger] channels[k]).id < slots
    &&& forall|a: int, b: int|
        0 <= a < b < channels.len() ==> (#[trigger] channels[a]).id != (#[trigger] channels[b]).id
}

/// Whether channel ids are distinct and each names a slot of a table of
/// `slots` entries.
pub fn check_ids(channels: &Vec<Channel>, slots: usize) -> (r: bool)
    ensures
        r == ids_wf(channels@, slots as int),
{
    let n = channels.len();
    let mut a: usize = 0;
    while a < n
        invariant
            n == channels@.len(),
            a <= n,
            forall|k: int| 0 <= k < a ==> (#[trigger] channels@[k]).id < slots,
            forall|p: int, q: int|
                0 <= p < q < n && p < a ==> (#[trigger] channels@[p]).id != (#[trigger] channels@[q]).id,
        decreases n - a,
    {
        if channels[a].id as usize >= slots {
            return false;
        }
        let mut b: usize = a + 1;
        while b < n
            invariant
                n == channels@.len(),
                a < n,
                a + 1 <= b <= n,
                forall|q: int| a < q < b ==> channels@[a as int].id != (#[trigger] channels@[q]).id,
            decreases n - b,
        {
            if channels[a].id == channels[b].id {
                return false;
            }
            b = b + 1;
        }
        a = a + 1;
    }
    true
}

/// Whether some non-empty channel writes to `slot`.
pub open spec fn written(channels: Seq<Channel>, slot: int) -> bool {
    exists|k: int|
        0 <= k < channels.len() && (#[trigger] channels[k]).id == slot && channels[k].clips@.len()
            > 0
}

/// The eval phase: each non-empty channel evaluates the clip its cache holds
/// and writes the result to the slot of its id. Empty channels write nothing.
pub fn eval_channels(
    channels: &Vec<Channel>,
    caches: &Vec<IndexCache>,
    song_time: i64,
    hits: &HitRegister,
    outputs: &mut Vec<ChannelOutput>,
)
    requires
        caches@.len() == channels@.len(),
        forall|k: int| 0 <= k < channels@.len() ==> (#[trigger] channels@[k]).wf(),
        forall|k: int|
            0 <= k < channels@.len() && (#[trigger] channels@[k]).clips@.len() > 0 ==> caches@[k].0
                < channels@[k].clips@.len(),
        ids_wf(channels@, old(outputs)@.len() as int),
        hits.wf(),
        in_time(song_time as int),
    ensures
        final(outputs)@.len() == old(outputs)@.len(),
        forall|k: int|
            0 <= k < channels@.len() && (#[trigger] channels@[k]).clips@.len() > 0
                ==> final(outputs)@[channels@[k].id as int] == slot_of(
                channels@[k].clips@[caches@[k].0 as int].eval_spec(*hits, song_time as int),
            ),
        forall|s: int|
            0 <= s < old(outputs)@.len() && !written(channels@, s) ==> #[trigger] final(outputs)@[s]
                == old(outputs)@[s],
{
    let n = channels.len();
    let mut k: usize = 0;
    while k < n
        invariant
            n == channels@.len(),
            caches@.len() == n,
            outputs@.len() == old(outputs)@.len(),
            k <= n,
            forall|j: int| 0 <= j < n ==> (#[trigger] channels@[j]).wf(),
            forall|j: int|
                0 <= j < n && (#[trigger] channels@[j]).clips@.len() > 0 ==> caches@[j].0
                    < channels@[j].clips@.len(),
            ids_wf(channels@, outputs@.len() as int),
            hits.wf(),
            in_time(song_time as int),
            forall|j: int|
                0 <= j < k && (#[trigger] channels@[j]).clips@.len() > 0 ==> outputs@[channels@[j].id as int]
                    == slot_of(
                    channels@[j].clips@[caches@[j].0 as int].eval_spec(*hits, song_time as int),
                ),
            forall|s: int|
                0 <= s < outputs@.len() && !written(channels@.subrange(0, k as int), s)
                    ==> #[trigger] outputs@[s] == old(outputs)@[s],
        decreases n - k,
    {
        let channel = &channels[k];
        let ghost before = outputs@;
        if channel.clips.len() > 0 {
            let clip = &channel.clips[caches[k].0];
            let (delegate, output) = clip.eval(hits, song_time);
            let redirect = match delegate {
                Some(c) => Some(c as usize),
                None => None,
            };
            outputs[channel.id as usize] = ChannelOutput { output, redirect };
        }
        proof {
            let done = channels@.subrange(0, k as int);
            let next = channels@.subrange(0, k + 1);
            assert forall|s: int|
                0 <= s < outputs@.len() && !written(next, s) implies #[trigger] outputs@[s]
                == old(outputs)@[s] by {
                if written(done, s) {
                    let j = choose|j: int|
                        0 <= j < done.len() && (#[trigger] done[j]).id == s && done[j].clips@.len()
                            > 0;
                    assert(next[j] == done[j]);
                }
                if channels@[k as int].clips@.len() > 0 {
                    assert(next[k as int] == channels@[k as int]);
                    assert(s != channels@[k as int].id);
                }
            }
            assert forall|j: int|
                0 <= j < k + 1 && (#[trigger] channels@[j]).clips@.len() > 0 implies outputs@[channels@[j].id as int]
                == slot_of(
                channels@[j].clips@[caches@[j].0 as int].eval_spec(*hits, song_time as int),
            ) by {
                if j < k && channels@[k as int].clips@.len() > 0 {
                    assert(channels@[j].id != channels@[k as int].id);
                }
            }
        }
        k = k + 1;
    }
    proof {
        assert(channels@.subrange(0, n as int) =~= channels@);
    }
}

/// One tick of the pipeline: the seek phase over every channel, then the
/// eval phase. Each non-empty channel's slot gets the result of the clip that
/// plays at `song_time`, whatever the caches held before.
pub fn run_tick(
    channels: &Vec<Channel>,
    caches: &mut Vec<IndexCache>,
    song_time: i64,
    hits: &HitRegister,
    outputs: &mut Vec<ChannelOutput>,
)
    requires
        old(caches)@.len() == channels@.len(),
        forall|k: int| 0 <= k < channels@.len() ==> (#[trigger] channels@[k]).wf(),
        ids_wf(channels@, old(outputs)@.len() as int),
        hits.wf(),
        in_time(song_time as int),
    ensures
        final(caches)@.len() == channels@.len(),
        final(outputs)@.len() == old(outputs)@.len(),
        forall|k: int|
            0 <= k < channels@.len() && (#[trigger] channels@[k]).clips@.len() > 0
                ==> final(caches)@[k].0 as int == channels@[k].clip_at(song_time as int)
                && final(outputs)@[channels@[k].id as int] == slot_of(
                channels@[k].clips@[channels@[k].clip_at(song_time as int)].eval_spec(
                    *hits,
                    song_time as int,
                ),
            ),
        forall|s: int|
            0 <= s < old(outputs)@.len() && !written(channels@, s) ==> #[trigger] final(outputs)@[s]
                == old(outputs)@[s],
{
    seek_channels(channels, caches, song_time);
    proof {
        assert forall|k: int|
            0 <= k < channels@.len() && (#[trigger] channels@[k]).clips@.len() > 0 implies caches@[k].0
            < channels@[k].clips@.len() by {
            lemma_seek_index_unique(keys(channels@[k].clips@), song_time as int, 0);
        }
    }
    eval_channels(channels, caches, song_time, hits, outputs);
}

/// Resolves one slot of the output table: its own value, or, where it names
/// a redirect to a slot of the table, the value of that slot. A redirect is
/// followed once and never further.
pub fn resolve(outputs: &Vec<ChannelOutput>, id: usize) -> (r: Option<i64>)
    requires
        id < outputs@.len(),
    ensures
        r == match outputs@[id as int].redirect {
            Some(t) => if t < outputs@.len() {
                outputs@[t as int].output
            } else {
                outputs@[id as int].output
            },
            None => outputs@[id as int].output,
        },
{
    match outputs[id].redirect {
        Some(t) => if t < outputs.len() {
            outputs[t].output
        } else {
            outputs[id].output
        },
        None => outputs[id].output,
    }
}

} // verus!
