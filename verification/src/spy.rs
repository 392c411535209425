//! The rolling baseline for one channel and its per-poll update.

use crate::viewers::names_of;
use crate::viewers::set_difference;
use crate::viewers::ViewerSet;
use crate::viewers::ViewersDiff;
use vstd::prelude::*;

verus! {

/// The chatter-list retrieval failed (network, authentication, malformed
/// response, rate limiting). Not distinguished further here.
#[derive(Debug)]
pub struct FetchError {
    pub message: String,
}

/// One fetched observation: the channel's participants, partitioned into
/// the categories the chatter-list endpoint reports.
pub struct Chatters {
    pub broadcaster: Vec<String>,
    pub viewers: Vec<String>,
    pub vips: Vec<String>,
    pub moderators: Vec<String>,
    pub staff: Vec<String>,
    pub admins: Vec<String>,
    pub global_mods: Vec<String>,
}

impl Chatters {
    /// All categories flattened into one set of names: a participant listed
    /// in several categories counts once.
    pub open spec fn view(&self) -> Set<Seq<char>> {
        names_of(self.broadcaster@).to_set().union(names_of(self.viewers@).to_set()).union(
            names_of(self.vips@).to_set(),
        ).union(names_of(self.moderators@).to_set()).union(names_of(self.staff@).to_set()).union(
            names_of(self.admins@).to_set(),
        ).union(names_of(self.global_mods@).to_set())
    }

    /// Flattens the seven categories into one deduplicated set.
    pub fn flatten(&self) -> (r: ViewerSet)
        ensures
            r.wf(),
            r@ == self@,
    {
        let mut v = ViewerSet::new();
        add_nicknames(&mut v, &self.broadcaster);
        add_nicknames(&mut v, &self.viewers);
        add_nicknames(&mut v, &self.vips);
        add_nicknames(&mut v, &self.moderators);
        add_nicknames(&mut v, &self.staff);
        add_nicknames(&mut v, &self.admins);
        add_nicknames(&mut v, &self.global_mods);
        proof {
            assert(v@ =~= self@);
        }
        v
    }
}

/// Inserts every name of `nicknames` into `viewers`; entries already held
/// contribute nothing further.
pub fn add_nicknames(viewers: &mut ViewerSet, nicknames: &Vec<String>)
    requires
        old(viewers).wf(),
    ensures
        final(viewers).wf(),
        final(viewers)@ == old(viewers)@.union(names_of(nicknames@).to_set()),
{
    let mut k: usize = 0;
    while k < nicknames.len()
        invariant
            0 <= k <= nicknames@.len(),
            viewers.wf(),
            viewers@ == old(viewers)@.union(names_of(nicknames@.take(k as int)).to_set()),
        decreases nicknames@.len() - k,
    {
        let ghost pre = viewers@;
        viewers.insert(nicknames[k].clone());
        k += 1;
        proof {
            let ghost kk = k as int;
            assert(names_of(nicknames@.take(kk)) =~= names_of(nicknames@.take(kk - 1)).push(
                nicknames@[kk - 1]@,
            ));
            names_of(nicknames@.take(kk - 1)).lemma_push_to_set_commute(nicknames@[kk - 1]@);
            assert(viewers@ == pre.insert(nicknames@[kk - 1]@));
            assert(viewers@ =~= old(viewers)@.union(names_of(nicknames@.take(kk)).to_set()));
        }
    }
    proof {
        assert(nicknames@.take(nicknames@.len() as int) == nicknames@);
    }
}

/// Watches one channel: holds the channel's name and the previously
/// observed participant set, the baseline for the next diff.
pub struct ChannelSpy {
    channel_nickname: String,
    prev_viewers: ViewerSet,
}

impl ChannelSpy {
    pub closed spec fn wf(&self) -> bool {
        self.prev_viewers.wf()
    }

    /// The stored baseline: the participant set of the previous poll.
    pub closed spec fn prev(&self) -> Set<Seq<char>> {
        self.prev_viewers@
    }

    /// The observed channel's name.
    pub closed spec fn channel(&self) -> Seq<char> {
        self.channel_nickname@
    }

    /// A fresh spy starts with an empty baseline: nothing has been observed
    /// yet.
    pub fn new(channel_name: String) -> (r: ChannelSpy)
        ensures
            r.wf(),
            r.prev() == Set::<Seq<char>>::empty(),
            r.channel() == channel_name@,
    {
        ChannelSpy { channel_nickname: channel_name, prev_viewers: ViewerSet::new() }
    }

    pub fn channel_name(&self) -> (r: &String)
        ensures
            r@ == self.channel(),
    {
        &self.channel_nickname
    }

    /// Consumes one fetch outcome. On success the returned diff exactly
    /// describes the transition from the stored baseline to the fetched
    /// set, and the baseline is replaced by the fetched set. On failure the
    /// error is passed on and the baseline is left untouched.
    pub fn update_viewers(&mut self, fetched: Result<Chatters, FetchError>) -> (r: Result<
        ViewersDiff,
        FetchError,
    >)
        requires
            old(self).wf(),
        ensures
            final(self).wf(),
            final(self).channel() == old(self).channel(),
            match fetched {
                Ok(chatters) => r matches Ok(d) && d.wf() && d.is_diff_of(
                    old(self).prev(),
                    chatters@,
                ) && d.new_viewers@.disjoint(d.left_viewers@) && final(self).prev() == chatters@
                    && (old(self).prev() == Set::<Seq<char>>::empty() ==> d.left_viewers@
                    == Set::<Seq<char>>::empty()),
                Err(e) => r matches Err(e2) && e2 == e && *final(self) == *old(self),
            },
    {
        match fetched {
            Ok(chatters) => {
                let current = chatters.flatten();
                let new_viewers = set_difference(&current, &self.prev_viewers);
                let left_viewers = set_difference(&self.prev_viewers, &current);
                self.prev_viewers = current;
                proof {
                    if old(self).prev() == Set::<Seq<char>>::empty() {
                        assert(left_viewers@ =~= Set::<Seq<char>>::empty());
                    }
                }
                Ok(ViewersDiff { new_viewers, left_viewers })
            },
            Err(e) => Err(e),
        }
    }
}

} // verus!
