//! The dosing regimen: one event per administration time, kept sorted.

use vstd::prelude::*;

use crate::config::DosingConfig;
use crate::config::DosingRoute;
use crate::decimal::Decimal;
use crate::error::PKResult;
use crate::models::DoseEvent;
use crate::models::DoseRoute;

verus! {

/// The event route of a configured route.
pub open spec fn route_of(r: DosingRoute) -> DoseRoute {
    match r {
        DosingRoute::Oral => DoseRoute::Oral,
        DosingRoute::IvBolus => DoseRoute::IvBolus,
        DosingRoute::IvInfusion => DoseRoute::IvInfusion,
    }
}

/// The duration attached to every event: the configured one for
/// infusions, none otherwise.
pub open spec fn spec_event_duration(cfg: &DosingConfig) -> Option<Decimal> {
    if cfg.route is IvInfusion {
        match cfg.additional {
            Some(a) => a.duration,
            None => None,
        }
    } else {
        None
    }
}

/// The event a single administration time gives.
pub open spec fn event_of(cfg: &DosingConfig, t: Decimal) -> DoseEvent {
    DoseEvent {
        time: t,
        amount: cfg.amount,
        route: route_of(cfg.route),
        duration: spec_event_duration(cfg),
    }
}

/// One event per configured time, in configuration order.
pub open spec fn expected_events(cfg: &DosingConfig) -> Seq<DoseEvent> {
    cfg.times@.map(|i: int, t: Decimal| event_of(cfg, t))
}

/// Ascending by time.
pub open spec fn events_sorted(s: Seq<DoseEvent>) -> bool {
    forall|i: int, j: int| 0 <= i < j < s.len() ==> s[i].time@ <= s[j].time@
}

/// A time-sorted list of dose events.
#[derive(Debug)]
pub struct DosingRegimen {
    pub events: Vec<DoseEvent>,
}

impl View for DosingRegimen {
    type V = Seq<DoseEvent>;

    open spec fn view(&self) -> Seq<DoseEvent> {
        self.events@
    }
}

impl DosingRegimen {
    /// Build the regimen: exactly the configured administrations
    /// (same amount, route, and duration on each), sorted by time.
    pub fn from_config(config: &DosingConfig) -> (r: PKResult<DosingRegimen>)
        ensures
            r matches Ok(reg) && {
                &&& reg@.len() == config.times@.len()
                &&& events_sorted(reg@)
                &&& reg@.to_multiset() == expected_events(config).to_multiset()
                &&& forall|k: int|
                    0 <= k < reg@.len() ==> (#[trigger] reg@[k]).amount == config.amount
                        && reg@[k].route == route_of(config.route) && reg@[k].duration
                        == spec_event_duration(config)
            },
    {
        let route = match config.route {
            DosingRoute::Oral => DoseRoute::Oral,
            DosingRoute::IvBolus => DoseRoute::IvBolus,
            DosingRoute::IvInfusion => DoseRoute::IvInfusion,
        };
        let infusion = match config.route {
            DosingRoute::IvInfusion => true,
            _ => false,
        };
        let duration: Option<Decimal> = if infusion {
            match &config.additional {
                Some(a) => a.duration,
                None => None,
            }
        } else {
            None
        };
        let mut events: Vec<DoseEvent> = Vec::new();
        let n = config.times.len();
        let mut k: usize = 0;
        proof {
            assert(events@.to_multiset() =~= expected_events(config).take(0).to_multiset()) by {
                assert(expected_events(config).take(0) =~= Seq::<DoseEvent>::empty());
                Seq::<DoseEvent>::empty().to_multiset_ensures();
                events@.to_multiset_ensures();
            }
        }
        while k < n
            invariant
                k <= n == config.times@.len(),
                route == route_of(config.route),
                duration == spec_event_duration(config),
                events@.len() == k,
                events_sorted(events@),
                events@.to_multiset() == expected_events(config).take(k as int).to_multiset(),
                forall|a: int|
                    0 <= a < events@.len() ==> (#[trigger] events@[a]).amount == config.amount
                        && events@[a].route == route_of(config.route) && events@[a].duration
                        == spec_event_duration(config),
            decreases n - k,
        {
            let t = config.times[k];
            let ev = DoseEvent { time: t, amount: config.amount, route, duration };
            proof {
                assert(expected_events(config)[k as int] == ev);
            }
            let m = events.len();
            let mut pos: usize = 0;
            while pos < m && !(events[pos].time.nanos > t.nanos)
                invariant
                    pos <= m == events@.len(),
                    forall|a: int| 0 <= a < pos ==> events@[a].time@ <= t@,
                decreases m - pos,
            {
                pos = pos + 1;
            }
            let ghost pre = events@;
            events.insert(pos, ev);
            proof {
                vstd::seq_lib::to_multiset_insert(pre, pos as int, ev);
                assert(expected_events(config).take(k + 1).drop_last() =~= expected_events(
                    config,
                ).take(k as int));
                assert(expected_events(config).take(k + 1) =~= expected_events(config).take(
                    k as int,
                ).push(ev));
                vstd::seq_lib::to_multiset_build(expected_events(config).take(k as int), ev);
                assert(events@.to_multiset() == expected_events(config).take(
                    k + 1,
                ).to_multiset());
                assert forall|i: int, j: int|
                    0 <= i < j < events@.len() implies events@[i].time@ <= events@[j].time@ by {
                    if j < pos {
                        assert(events@[i] == pre[i] && events@[j] == pre[j]);
                    } else if j == pos {
                        assert(events@[j] == ev);
                        assert(events@[i] == pre[i]);
                    } else {
                        assert(events@[j] == pre[j - 1]);
                        if i < pos {
                            assert(events@[i] == pre[i]);
                            assert(pre[j - 1].time@ >= pre[pos as int].time@);
                        } else if i == pos {
                            assert(events@[i] == ev);
                            assert(pre[j - 1].time@ >= pre[pos as int].time@);
                        } else {
                            assert(events@[i] == pre[i - 1]);
                        }
                    }
                }
            }
            k = k + 1;
        }
        proof {
            assert(expected_events(config).take(n as int) =~= expected_events(config));
        }
        Ok(DosingRegimen { events })
    }

    /// Exactly the events administered at or before `time`, in order.
    pub fn get_events_before(&self, time: Decimal) -> (r: Vec<DoseEvent>)
        ensures
            r@ == self@.filter(|e: DoseEvent| e.time@ <= time@),
    {
        let n = self.events.len();
        let mut r: Vec<DoseEvent> = Vec::new();
        let mut i: usize = 0;
        proof {
            assert(self@.take(0) =~= Seq::<DoseEvent>::empty());
            reveal(Seq::filter);
        }
        while i < n
            invariant
                i <= n == self@.len(),
                r@ == self@.take(i as int).filter(|e: DoseEvent| e.time@ <= time@),
            decreases n - i,
        {
            proof {
                reveal(Seq::filter);
                assert(self@.take(i + 1).drop_last() =~= self@.take(i as int));
                assert(self@.take(i + 1).last() == self@[i as int]);
            }
            if self.events[i].time.nanos <= time.nanos {
                r.push(self.events[i]);
            }
            i = i + 1;
        }
        proof {
            assert(self@.take(n as int) =~= self@);
        }
        r
    }
}

} // verus!
