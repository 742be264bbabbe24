//! Analytics collection: events are gathered into batches, and a batch is
//! handed on for export once it is large, full or old enough.

pub mod batcher;
pub mod geoip;
pub mod time;

use vstd::prelude::*;
use std::sync::Arc;

verus! {

/// Anything that can be moved to the collecting task is an event.
pub trait AnalyticsEvent: 'static + Send + Sync {

}

impl<T> AnalyticsEvent for T where T: 'static + Send + Sync {

}

/// A sink for events of type `T`.
pub trait AnalyticsCollector<T>: Send + Sync where T: AnalyticsEvent {
    /// What a completed `collect` of `data` guarantees. Each collector
    /// chooses its own guarantee.
    open spec fn collected(&self, data: T) -> bool {
        true
    }

    /// The invariants that `collect` may open. Each collector chooses its own.
    open spec fn opened(&self) -> Set<int> {
        Set::full()
    }

    fn collect(&self, data: T)
        ensures
            self.collected(data),
        opens_invariants self.opened()
    ;
}

/// A collector behind a box stands for any collector of the same events.
impl<T> AnalyticsCollector<T> for Box<dyn AnalyticsCollector<T>> where T: AnalyticsEvent {
    open spec fn collected(&self, data: T) -> bool {
        (**self).collected(data)
    }

    open spec fn opened(&self) -> Set<int> {
        (**self).opened()
    }

    fn collect(&self, data: T) {
        (**self).collect(data)
    }
}

/// A cheaply cloneable handle through which events are collected.
///
/// All clones hand their events to the same collector. The collector's type
/// is erased where `C` is left at its default.
#[verifier::reject_recursive_types(T)]
pub struct Analytics<T, C = Box<dyn AnalyticsCollector<T>>> where
    T: AnalyticsEvent,
    C: AnalyticsCollector<T>,
 {
    inner: Arc<C>,
    events: std::marker::PhantomData<T>,
}

impl<T, C> Analytics<T, C> where T: AnalyticsEvent, C: AnalyticsCollector<T> {
    /// The collector that receives the events.
    pub closed spec fn collector(&self) -> C {
        *self.inner
    }

    pub fn new(collector: C) -> (analytics: Self)
        ensures
            analytics.collector() == collector,
    {
        Self { inner: Arc::new(collector), events: std::marker::PhantomData }
    }

    /// Hands the event to the collector.
    pub fn collect(&self, data: T)
        ensures
            call_ensures(C::collect, (&self.collector(), data), ()),
            self.collector().collected(data),
        opens_invariants self.collector().opened()
    {
        (*self.inner).collect(data)
    }
}

impl<T, C> Clone for Analytics<T, C> where T: AnalyticsEvent, C: AnalyticsCollector<T> {
    fn clone(&self) -> (copy: Self)
        ensures
            copy.collector() == self.collector(),
    {
        Self { inner: self.inner.clone(), events: std::marker::PhantomData }
    }
}

/// The handles to `collector`: the one that was made of it and clones of such
/// handles, each made of an earlier one.
pub open spec fn are_handles<T, C>(collector: C, handles: Seq<Analytics<T, C>>) -> bool where
    T: AnalyticsEvent,
    C: AnalyticsCollector<T>,
 {
    forall|i: int|
        0 <= i < handles.len() ==> call_ensures(
            Analytics::<T, C>::new,
            (collector,),
            #[trigger] handles[i],
        ) || is_clone_of_earlier(handles, i)
}

/// The handle at `i` is a clone of one before it.
pub open spec fn is_clone_of_earlier<T, C>(handles: Seq<Analytics<T, C>>, i: int) -> bool where
    T: AnalyticsEvent,
    C: AnalyticsCollector<T>,
 {
    exists|j: int|
        0 <= j < i && call_ensures(
            Analytics::<T, C>::clone,
            (&(#[trigger] handles[j]),),
            handles[i],
        )
}

/// All handles lead to the collector that the first was made of, however often
/// they were cloned.
pub proof fn law_handles_share_the_collector<T, C>(collector: C, handles: Seq<Analytics<T, C>>) where
    T: AnalyticsEvent,
    C: AnalyticsCollector<T>,

    requires
        are_handles(collector, handles),
    ensures
        forall|i: int| 0 <= i < handles.len() ==> (#[trigger] handles[i]).collector() == collector,
    decreases handles.len(),
{
    if handles.len() > 0 {
        let earlier = handles.drop_last();
        let n = handles.len() - 1;
        assert forall|i: int| 0 <= i < earlier.len() implies call_ensures(
            Analytics::<T, C>::new,
            (collector,),
            #[trigger] earlier[i],
        ) || is_clone_of_earlier(earlier, i) by {
            assert(handles[i] == earlier[i]);
            if is_clone_of_earlier(handles, i) {
                let j = choose|j: int|
                    0 <= j < i && call_ensures(
                        Analytics::<T, C>::clone,
                        (&(#[trigger] handles[j]),),
                        handles[i],
                    );
                assert(earlier[j] == handles[j]);
            }
        }
        law_handles_share_the_collector(collector, earlier);
        assert forall|i: int| 0 <= i < handles.len() implies (#[trigger] handles[i]).collector()
            == collector by {
            if i < n {
                assert(earlier[i] == handles[i]);
            } else if is_clone_of_earlier(handles, n) {
                let j = choose|j: int|
                    0 <= j < n && call_ensures(
                        Analytics::<T, C>::clone,
                        (&(#[trigger] handles[j]),),
                        handles[n],
                    );
                assert(earlier[j] == handles[j]);
            }
        }
    }
}

/// Whichever handles events are collected through, each call hands its event to
/// the one collector, unchanged.
pub proof fn law_collector_receives_every_event<T, C>(
    collector: C,
    handles: Seq<Analytics<T, C>>,
    used: Seq<int>,
    events: Seq<T>,
) where T: AnalyticsEvent, C: AnalyticsCollector<T>
    requires
        are_handles(collector, handles),
        used.len() == events.len(),
        forall|k: int|
            0 <= k < used.len() ==> 0 <= #[trigger] used[k] < handles.len() && call_ensures(
                Analytics::<T, C>::collect,
                (&handles[used[k]], events[k]),
                (),
            ),
    ensures
        forall|k: int|
            0 <= k < events.len() ==> call_ensures(
                C::collect,
                (&collector, #[trigger] events[k]),
                (),
            ) && collector.collected(events[k]),
{
    law_handles_share_the_collector(collector, handles);
    assert forall|k: int| 0 <= k < events.len() implies call_ensures(
        C::collect,
        (&collector, #[trigger] events[k]),
        (),
    ) && collector.collected(events[k]) by {
        assert(handles[used[k]].collector() == collector);
    }
}

/// The current time as text. `time::now` and `time::format` give the same in
/// two steps.
pub fn create_timestamp() -> (text: String)
    ensures
        time::may_read_text(text@),
{
    time::create_timestamp()
}

} // verus!
