use idlemail::config::{
    ConfigContainer, DestinationConfig, MemoryRetryAgentConfig, SourceConfig, TestDestinationConfig,
};
use idlemail::hub::{after_delivery, Delivery, Ingress, Mail, Router, RouterAction, RouterEvent, TestDestination, WorkerAction};
use idlemail::retry::{MemoryRetryAgent, RetryEvent, RetryStep};

fn config(mapping: &[&str], fails: &[(&str, u16)]) -> ConfigContainer {
    ConfigContainer {
        destinations: fails
            .iter()
            .map(|(n, k)| (n.to_string(), DestinationConfig::Test(TestDestinationConfig { fail_n_first: *k })))
            .collect(),
        sources: vec![("s1".to_string(), SourceConfig::Test)],
        retryagent: None,
        mappings: vec![("s1".to_string(), mapping.iter().map(|d| d.to_string()).collect())],
    }
}

fn mail() -> Mail {
    Mail::new("s1".to_string(), b"Subject: hi\r\n\r\nbody".to_vec())
}

fn destination<'a>(dsts: &'a mut Vec<(String, TestDestination)>, name: &str) -> &'a mut TestDestination {
    &mut dsts.iter_mut().find(|(n, _)| n == name).unwrap().1
}

/// Runs the hub's decisions in one thread: routes the mail, attempts each
/// delivery, feeds failures to a memory retry agent and replays the clock.
/// Returns the times (in ms) of every attempt, per destination.
fn simulate(cfg: &ConfigContainer, delay: Option<u64>, until_ms: u64) -> Vec<(String, Vec<u64>)> {
    let router = Router::from_config(cfg);
    let mut dsts: Vec<(String, TestDestination)> = cfg
        .destinations
        .iter()
        .map(|(n, d)| match d {
            DestinationConfig::Test(t) => (n.clone(), TestDestination::new(t)),
            _ => unreachable!(),
        })
        .collect();
    let mut attempts: Vec<(String, Vec<u64>)> = dsts.iter().map(|(n, _)| (n.clone(), vec![])).collect();
    let mut agent = delay.map(|d| MemoryRetryAgent::new(&MemoryRetryAgentConfig { delay: d }));
    let mut pending: Vec<Delivery> = router.route(Ingress::FromSource { source: "s1".to_string(), mail: mail() });
    let mut now: u64 = 0;
    while now <= until_ms {
        for d in std::mem::take(&mut pending) {
            attempts.iter_mut().find(|(n, _)| *n == d.destination).unwrap().1.push(now);
            let ok = destination(&mut dsts, &d.destination).deliver(&d.mail).is_ok();
            match after_delivery(d.destination, d.mail, ok, agent.is_some()) {
                WorkerAction::Retry { destination, mail } => {
                    let step = agent.as_mut().unwrap().step(now, RetryEvent::QueueMail { destination, mail });
                    assert!(matches!(step, RetryStep::Resend(ref v) if v.is_empty()));
                }
                WorkerAction::Done | WorkerAction::Discard => {}
            }
        }
        now += 100;
        if let Some(a) = agent.as_mut() {
            if let RetryStep::Resend(due) = a.step(now, RetryEvent::Tick) {
                for e in due {
                    pending.extend(router.route(Ingress::FromRetry { destination: e.destination, mail: e.mail }));
                }
            }
        }
    }
    attempts
}

#[test]
fn one_destination_delivers_once_without_retry() {
    let cfg = config(&["d1"], &[("d1", 0)]);
    let a = simulate(&cfg, None, 5000);
    assert_eq!(a, vec![("d1".to_string(), vec![0])]);
}

#[test]
fn two_failures_are_retried_after_each_delay() {
    let cfg = config(&["d1"], &[("d1", 2)]);
    let a = simulate(&cfg, Some(1), 5000);
    assert_eq!(a.len(), 1);
    let times = &a[0].1;
    assert_eq!(times.len(), 3);
    assert_eq!(times[0], 0);
    assert!(times[1] > 1000 && times[1] <= 1100);
    assert!(times[2] > times[1] + 1000 && times[2] <= times[1] + 1100);
}

#[test]
fn two_destinations_each_receive_once() {
    let cfg = config(&["d1", "d2"], &[("d1", 0), ("d2", 0)]);
    let a = simulate(&cfg, Some(1), 5000);
    assert_eq!(a, vec![("d1".to_string(), vec![0]), ("d2".to_string(), vec![0])]);
}

#[test]
fn retry_goes_only_to_the_failing_destination() {
    let cfg = config(&["d1", "d2"], &[("d1", 1), ("d2", 0)]);
    let a = simulate(&cfg, Some(1), 5000);
    assert_eq!(a[0].0, "d1");
    assert_eq!(a[0].1.len(), 2);
    assert_eq!(a[1], ("d2".to_string(), vec![0]));
}

#[test]
fn failure_without_retry_agent_is_discarded() {
    let r = after_delivery("d1".to_string(), mail(), false, false);
    assert!(matches!(r, WorkerAction::Discard));
    let r = after_delivery("d1".to_string(), mail(), true, true);
    assert!(matches!(r, WorkerAction::Done));
}

#[test]
fn repeated_destination_in_mapping_is_routed_once() {
    let cfg = config(&["d1", "d2", "d1"], &[("d1", 0), ("d2", 0)]);
    let router = Router::from_config(&cfg);
    let out = router.route(Ingress::FromSource { source: "s1".to_string(), mail: mail() });
    let names: Vec<&str> = out.iter().map(|d| d.destination.as_str()).collect();
    assert_eq!(names, vec!["d1", "d2"]);
    assert!(out.iter().all(|d| d.mail.body == mail().body && d.mail.source == "s1"));
}

#[test]
fn unknown_source_routes_nowhere() {
    let cfg = config(&["d1"], &[("d1", 0)]);
    let router = Router::from_config(&cfg);
    assert!(router.route(Ingress::FromSource { source: "zz".to_string(), mail: mail() }).is_empty());
}

#[test]
fn retried_mail_is_routed_to_its_destination() {
    let cfg = config(&["d1", "d2"], &[("d1", 0), ("d2", 0)]);
    let router = Router::from_config(&cfg);
    let out = router.route(Ingress::FromRetry { destination: "d2".to_string(), mail: mail() });
    assert_eq!(out.len(), 1);
    assert_eq!(out[0].destination, "d2");
}

#[test]
fn test_destination_fails_first_n() {
    let mut d = TestDestination::new(&TestDestinationConfig { fail_n_first: 2 });
    assert!(d.deliver(&mail()).is_err());
    assert!(d.deliver(&mail()).is_err());
    assert!(d.deliver(&mail()).is_ok());
    assert!(d.deliver(&mail()).is_ok());
    assert_eq!(d.delivered, 2);
}

#[test]
fn router_drains_then_shuts_down_when_stopping() {
    let cfg = config(&["d1"], &[("d1", 0)]);
    let router = Router::from_config(&cfg);
    let msg = Ingress::FromSource { source: "s1".to_string(), mail: mail() };
    match router.router_step(true, RouterEvent::Message(msg)) {
        RouterAction::Dispatch(v) => assert_eq!(v.len(), 1),
        _ => panic!("queued mail must still be routed"),
    }
    assert!(matches!(router.router_step(true, RouterEvent::Idle), RouterAction::Shutdown));
    assert!(matches!(router.router_step(false, RouterEvent::Idle), RouterAction::Wait));
    assert!(matches!(router.router_step(false, RouterEvent::Closed), RouterAction::Shutdown));
}
