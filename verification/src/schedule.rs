//! When the feeds of a poll are fetched: the groups of a cycle start one
//! after the other, and the feeds of a group are taken strictly in turn.

use vstd::prelude::*;
use vstd::string::*;
use crate::feed::{text_of, Feed, FeedView};
use crate::host::{
    grouped_by_host,
    grouping_by_host,
    host_of,
    hosts_of,
    lemma_groups_keep_hosts_apart,
};

verus! {

/// The seconds between the start of one group of a cycle and the start of
/// the next.
pub const LAUNCH_DELAY_SECS: u64 = 1;

/// The links of the feeds.
pub open spec fn links_of(feeds: Seq<FeedView>) -> Seq<Seq<char>> {
    Seq::new(feeds.len(), |i: int| feeds[i].link)
}

/// Takes the feeds of one host through a cycle, one at a time: the next feed
/// is handed out only when the one before it is done with.
pub struct GroupDispatcher {
    links: Vec<String>,
    next: usize,
    in_flight: bool,
}

/// What a [`GroupDispatcher`] is in contracts.
pub struct GroupDispatcherView {
    /// The links of the group's feeds, in the order in which they are taken.
    pub links: Seq<Seq<char>>,
    /// How many feeds have been done with.
    pub done: nat,
    /// Whether a feed has been handed out and is not done with yet.
    pub in_flight: bool,
}

impl GroupDispatcherView {
    /// Whether a feed can be handed out now.
    pub open spec fn ready(self) -> bool {
        !self.in_flight && self.done < self.links.len()
    }

    /// Whether the group is through.
    pub open spec fn finished(self) -> bool {
        !self.in_flight && self.done >= self.links.len()
    }

    /// The link that is handed out now: that of the first feed that is not
    /// done with, unless a feed is in flight or none is left.
    pub open spec fn handed_out(self) -> Option<Seq<char>> {
        if self.ready() {
            Some(self.links[self.done as int])
        } else {
            None
        }
    }

    /// The group after an attempt to start its next feed.
    pub open spec fn after_start(self) -> GroupDispatcherView {
        if self.ready() {
            GroupDispatcherView { in_flight: true, ..self }
        } else {
            self
        }
    }

    /// The group after the feed in flight is done with. An abort drops the
    /// feeds that are left.
    pub open spec fn after_finish(self, aborted: bool) -> GroupDispatcherView {
        if self.in_flight {
            GroupDispatcherView {
                done: if aborted {
                    self.links.len()
                } else {
                    self.done + 1
                },
                in_flight: false,
                ..self
            }
        } else {
            self
        }
    }
}

/// The feeds of a group never overlap. Once a feed is handed out, asking
/// again hands out nothing and leaves the group as it is, however often it
/// is asked. Only when that feed is done with is the next one handed out,
/// and it is the feed that follows.
pub proof fn lemma_one_feed_at_a_time(group: GroupDispatcherView)
    requires
        group.ready(),
    ensures
        group.after_start().in_flight,
        group.after_start().handed_out() is None,
        group.after_start().after_start() == group.after_start(),
        group.after_start().after_finish(false).done == group.done + 1,
        !group.after_start().after_finish(false).in_flight,
        group.done + 1 < group.links.len() ==> group.after_start().after_finish(
            false,
        ).handed_out() == Some(group.links[group.done as int + 1]),
        group.after_start().after_finish(true).finished(),
{
}

impl View for GroupDispatcher {
    type V = GroupDispatcherView;

    closed spec fn view(&self) -> GroupDispatcherView {
        GroupDispatcherView {
            links: self.links.deep_view(),
            done: self.next as nat,
            in_flight: self.in_flight,
        }
    }
}

impl DeepView for GroupDispatcher {
    type V = GroupDispatcherView;

    open spec fn deep_view(&self) -> GroupDispatcherView {
        self.view()
    }
}

impl GroupDispatcher {
    /// What holds of every dispatcher: it never counts more feeds than it
    /// has, and a feed in flight is one of its feeds.
    #[verifier::type_invariant]
    pub open spec fn in_bounds(self) -> bool {
        self@.done <= self@.links.len() && (self@.in_flight ==> self@.done < self@.links.len())
    }

    /// A dispatcher for the feeds of one group, none of them started.
    pub fn new(group: &Vec<Feed>) -> (dispatcher: GroupDispatcher)
        ensures
            dispatcher@ == (GroupDispatcherView {
                links: links_of(group.deep_view()),
                done: 0,
                in_flight: false,
            }),
    {
        let mut links: Vec<String> = Vec::new();
        for i in 0..group.len()
            invariant
                links.deep_view() == links_of(group.deep_view()).take(i as int),
        {
            let ghost earlier = links.deep_view();
            let link = String::from_str(group[i].link());
            links.push(link);
            assert(links.deep_view() =~= earlier.push(link@));
            assert(links.deep_view() =~= links_of(group.deep_view()).take(i + 1));
        }
        assert(links.deep_view() =~= links_of(group.deep_view()));
        GroupDispatcher { links, next: 0, in_flight: false }
    }

    /// Hands out the link of the feed to fetch next. There is none while a
    /// feed is in flight, and none once the group is through.
    pub fn start_next(&mut self) -> (link: Option<String>)
        ensures
            text_of(link) == old(self)@.handed_out(),
            final(self)@ == old(self)@.after_start(),
    {
        proof {
            use_type_invariant(&*self);
        }
        if self.in_flight || self.next >= self.links.len() {
            None
        } else {
            self.in_flight = true;
            Some(self.links[self.next].clone())
        }
    }

    /// Notes that the feed in flight is done with, however its fetch ended.
    /// After a failure that nothing can be done about, `aborted` drops the
    /// feeds that are left. Without a feed in flight nothing changes.
    pub fn finish(&mut self, aborted: bool)
        ensures
            final(self)@ == old(self)@.after_finish(aborted),
    {
        proof {
            use_type_invariant(&*self);
        }
        if self.in_flight {
            assert(self.links.deep_view().len() == self.links.len());
            self.in_flight = false;
            if aborted {
                self.next = self.links.len();
            } else {
                self.next = self.next + 1;
            }
        }
    }

    /// Whether every feed of the group is done with.
    pub fn is_finished(&self) -> (finished: bool)
        ensures
            finished == self@.finished(),
    {
        !self.in_flight && self.next >= self.links.len()
    }
}

/// One group of a cycle and when it starts.
pub struct Launch {
    /// The seconds from the tick to the start of the group.
    pub after_secs: u64,
    /// The feeds of the group, none of them started.
    pub group: GroupDispatcher,
}

/// What a [`Launch`] is in contracts.
pub struct LaunchView {
    pub after_secs: nat,
    pub group: GroupDispatcherView,
}

impl View for Launch {
    type V = LaunchView;

    open spec fn view(&self) -> LaunchView {
        LaunchView { after_secs: self.after_secs as nat, group: self.group@ }
    }
}

impl DeepView for Launch {
    type V = LaunchView;

    open spec fn deep_view(&self) -> LaunchView {
        self.view()
    }
}

/// The launches of a cycle over `feeds`: one per host, the hosts in the
/// order in which they first occur, each group one delay after the group
/// before it.
pub open spec fn planned_cycle(feeds: Seq<FeedView>) -> Seq<LaunchView> {
    let groups = grouped_by_host(feeds);
    Seq::new(
        groups.len(),
        |k: int|
            LaunchView {
                after_secs: (k * LAUNCH_DELAY_SECS) as nat,
                group: GroupDispatcherView { links: links_of(groups[k]), done: 0, in_flight: false },
            },
    )
}

/// Something that happens to one of the groups in the course of a cycle.
pub enum CycleEvent {
    /// The group is asked for its next feed.
    Start { group: int },
    /// The feed that the group has in flight is done with.
    Finish { group: int, aborted: bool },
}

/// The groups of a cycle as they start out.
pub open spec fn cycle_groups(feeds: Seq<FeedView>) -> Seq<GroupDispatcherView> {
    Seq::new(planned_cycle(feeds).len(), |k: int| planned_cycle(feeds)[k].group)
}

/// The groups after one event. An event for a group that does not exist
/// changes nothing.
pub open spec fn cycle_step(groups: Seq<GroupDispatcherView>, event: CycleEvent) -> Seq<
    GroupDispatcherView,
> {
    match event {
        CycleEvent::Start { group } => if 0 <= group < groups.len() {
            groups.update(group, groups[group].after_start())
        } else {
            groups
        },
        CycleEvent::Finish { group, aborted } => if 0 <= group < groups.len() {
            groups.update(group, groups[group].after_finish(aborted))
        } else {
            groups
        },
    }
}

/// The groups after the events, in their order.
pub open spec fn cycle_after(groups: Seq<GroupDispatcherView>, events: Seq<CycleEvent>) -> Seq<
    GroupDispatcherView,
>
    decreases events.len(),
{
    if events.len() == 0 {
        groups
    } else {
        cycle_step(cycle_after(groups, events.drop_last()), events.last())
    }
}

/// Whatever happens in a cycle, and in whatever order, leaves the groups
/// with their feeds, and a group never has a feed in flight that is not one
/// of its own.
proof fn lemma_cycle_keeps_groups(feeds: Seq<FeedView>, events: Seq<CycleEvent>)
    ensures
        cycle_after(cycle_groups(feeds), events).len() == cycle_groups(feeds).len(),
        forall|g: int|
            0 <= g < cycle_groups(feeds).len() ==> {
                let group = #[trigger] cycle_after(cycle_groups(feeds), events)[g];
                &&& group.links == cycle_groups(feeds)[g].links
                &&& group.done <= group.links.len()
                &&& group.in_flight ==> group.done < group.links.len()
            },
    decreases events.len(),
{
    if events.len() > 0 {
        lemma_cycle_keeps_groups(feeds, events.drop_last());
    }
}

/// Hosts are kept apart throughout a cycle. Whatever has happened to the
/// groups, and in whatever order, a group has at most one feed in flight,
/// and two feeds that are in flight at the same time live on different
/// hosts.
pub proof fn lemma_hosts_never_overlap(feeds: Seq<FeedView>, events: Seq<CycleEvent>)
    ensures
        forall|g: int, h: int|
            #![trigger
                cycle_after(cycle_groups(feeds), events)[g],
                cycle_after(cycle_groups(feeds), events)[h]
            ]
            {
                let now = cycle_after(cycle_groups(feeds), events);
                0 <= g < h < now.len() && now[g].in_flight && now[h].in_flight ==> host_of(
                    now[g].links[now[g].done as int],
                ) != host_of(now[h].links[now[h].done as int])
            },
{
    let now = cycle_after(cycle_groups(feeds), events);
    let groups = grouped_by_host(feeds);
    lemma_cycle_keeps_groups(feeds, events);
    lemma_groups_keep_hosts_apart(feeds);
    assert forall|g: int, h: int|
        0 <= g < h < now.len() && now[g].in_flight && now[h].in_flight implies host_of(
        now[g].links[now[g].done as int],
    ) != host_of(now[h].links[now[h].done as int]) by {
        assert(now[g].links == links_of(groups[g]));
        assert(now[h].links == links_of(groups[h]));
        assert(host_of(groups[g][now[g].done as int].link) == hosts_of(feeds)[g]);
        assert(host_of(groups[h][now[h].done as int].link) == hosts_of(feeds)[h]);
    }
}

/// Feeds on different hosts may well be fetched at the same time: two groups
/// that are both ready both have a feed in flight once each was started.
pub proof fn lemma_hosts_may_overlap(groups: Seq<GroupDispatcherView>, g: int, h: int)
    requires
        0 <= g < groups.len(),
        0 <= h < groups.len(),
        g != h,
        groups[g].ready(),
        groups[h].ready(),
    ensures
        ({
            let now = cycle_step(
                cycle_step(groups, CycleEvent::Start { group: g }),
                CycleEvent::Start { group: h },
            );
            now[g].in_flight && now[h].in_flight
        }),
{
}

/// Plans one cycle over a snapshot of the feeds.
pub fn plan_cycle(feeds: Vec<Feed>) -> (launches: Vec<Launch>)
    ensures
        launches.deep_view() == planned_cycle(feeds.deep_view()),
{
    let groups = grouping_by_host(feeds);
    let mut launches: Vec<Launch> = Vec::new();
    let mut after_secs: u64 = 0;
    for k in 0..groups.len()
        invariant
            groups.deep_view() == grouped_by_host(feeds.deep_view()),
            after_secs == k * LAUNCH_DELAY_SECS,
            launches.deep_view() == planned_cycle(feeds.deep_view()).take(k as int),
    {
        let ghost earlier = launches.deep_view();
        let launch = Launch { after_secs, group: GroupDispatcher::new(&groups[k]) };
        launches.push(launch);
        after_secs = after_secs + LAUNCH_DELAY_SECS;
        assert(groups.deep_view()[k as int] == groups[k as int].deep_view());
        assert(launches.deep_view() =~= earlier.push(launch@));
        assert(launches.deep_view() =~= planned_cycle(feeds.deep_view()).take(k + 1));
    }
    assert(launches.deep_view() =~= planned_cycle(feeds.deep_view()));
    launches
}

/// The polling loop: it plans a cycle at every tick until its timer fails.
pub struct PollLoop {
    stopped: bool,
}

impl PollLoop {
    /// Whether the loop has stopped for good.
    pub closed spec fn stopped(self) -> bool {
        self.stopped
    }

    /// A loop that runs.
    pub fn new() -> (poll: PollLoop)
        ensures
            !poll.stopped(),
    {
        PollLoop { stopped: false }
    }

    /// Whether the loop has stopped for good.
    pub fn is_stopped(&self) -> (stopped: bool)
        ensures
            stopped == self.stopped(),
    {
        self.stopped
    }

    /// A tick of the timer, with a snapshot of the feeds: the launches of
    /// the cycle that starts now. A loop that has stopped launches nothing.
    pub fn on_tick(&self, feeds: Vec<Feed>) -> (launches: Vec<Launch>)
        ensures
            launches.deep_view() == if self.stopped() {
                Seq::<LaunchView>::empty()
            } else {
                planned_cycle(feeds.deep_view())
            },
    {
        if self.stopped {
            let launches: Vec<Launch> = Vec::new();
            assert(launches.deep_view() =~= Seq::<LaunchView>::empty());
            launches
        } else {
            plan_cycle(feeds)
        }
    }

    /// The timer has failed: the loop stops and stays stopped.
    pub fn on_timer_error(&mut self)
        ensures
            final(self).stopped(),
    {
        self.stopped = true;
    }
}

} // verus!
