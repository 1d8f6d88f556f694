use vstd::prelude::*;
use vstd::string::StringExecFns;
use crate::config::{views, names_of, ConfigContainer, TestDestinationConfig};

verus! {

/// A mail on its way: the raw message and the name of the source it came from.
#[derive(Debug, Clone)]
pub struct Mail {
    pub source: String,
    pub body: Vec<u8>,
}

impl View for Mail {
    type V = (Seq<char>, Seq<u8>);

    open spec fn view(&self) -> (Seq<char>, Seq<u8>) {
        (self.source@, self.body@)
    }
}

impl Mail {
    pub fn new(source: String, body: Vec<u8>) -> (r: Mail)
        ensures
            r@ == (source@, body@),
    {
        Mail { source, body }
    }

    /// A second copy of the same mail.
    pub fn duplicate(&self) -> (r: Mail)
        ensures
            r@ == self@,
    {
        let body = self.body.clone();
        proof {
            assert(body@ =~= self.body@);
        }
        Mail { source: self.source.clone(), body }
    }
}


/// One mail handed to the inbound queue of one destination.
#[derive(Debug, Clone)]
pub struct Delivery {
    pub destination: String,
    pub mail: Mail,
}

impl View for Delivery {
    type V = (Seq<char>, (Seq<char>, Seq<u8>));

    open spec fn view(&self) -> (Seq<char>, (Seq<char>, Seq<u8>)) {
        (self.destination@, self.mail@)
    }
}

/// What arrives at the hub: a new mail from a source, or a mail that the
/// retry agent hands back for the one destination that failed it.
#[derive(Debug, Clone)]
pub enum Ingress {
    FromSource { source: String, mail: Mail },
    FromRetry { destination: String, mail: Mail },
}

/// The destinations of the first route named `source`, in order.
pub open spec fn fanout_of(routes: Seq<(String, Vec<String>)>, source: Seq<char>) -> Seq<Seq<char>>
    decreases routes.len(),
{
    if routes.len() == 0 {
        Seq::empty()
    } else if routes[0].0@ == source {
        views(routes[0].1@)
    } else {
        fanout_of(routes.subrange(1, routes.len() as int), source)
    }
}

/// The deliveries that one mail sent to each of `dsts` gives.
pub open spec fn deliveries_to(dsts: Seq<Seq<char>>, mail: (Seq<char>, Seq<u8>)) -> Seq<(Seq<char>, (Seq<char>, Seq<u8>))> {
    dsts.map_values(|d: Seq<char>| (d, mail))
}

pub open spec fn delivery_views(r: Seq<Delivery>) -> Seq<(Seq<char>, (Seq<char>, Seq<u8>))> {
    r.map_values(|d: Delivery| d@)
}

/// The mapping table: for each source, the destinations that receive its mails.
#[derive(Debug, Clone)]
pub struct Router {
    pub routes: Vec<(String, Vec<String>)>,
}

impl Router {
    /// No route names a destination twice.
    pub open spec fn wf(&self) -> bool {
        forall|i: int| 0 <= i < self.routes@.len() ==> (#[trigger] views(self.routes@[i].1@)).no_duplicates()
    }

    pub open spec fn fanout(&self, source: Seq<char>) -> Seq<Seq<char>> {
        fanout_of(self.routes@, source)
    }

    /// Route `i` of the router is mapping `i` of `cfg`: the same source, and
    /// the same set of destination names.
    pub open spec fn routes_of(&self, cfg: ConfigContainer) -> bool {
        &&& self.routes@.len() == cfg.mappings@.len()
        &&& forall|i: int| 0 <= i < self.routes@.len() ==> {
            &&& (#[trigger] self.routes@[i]).0@ == cfg.mappings@[i].0@
            &&& forall|d: Seq<char>| views(self.routes@[i].1@).contains(d) <==> views(cfg.mappings@[i].1@).contains(d)
        }
    }

    /// Builds the mapping table of a configuration.
    pub fn from_config(cfg: &ConfigContainer) -> (r: Router)
        ensures
            r.wf(),
            r.routes_of(*cfg),
    {
        let mut routes: Vec<(String, Vec<String>)> = Vec::new();
        let mut i: usize = 0;
        while i < cfg.mappings.len()
            invariant
                0 <= i <= cfg.mappings@.len(),
                routes@.len() == i,
                forall|k: int| 0 <= k < i ==> (#[trigger] views(routes@[k].1@)).no_duplicates(),
                forall|k: int| 0 <= k < i ==> {
                    &&& (#[trigger] routes@[k]).0@ == cfg.mappings@[k].0@
                    &&& forall|d: Seq<char>| views(routes@[k].1@).contains(d) <==> views(cfg.mappings@[k].1@).contains(d)
                },
            decreases cfg.mappings@.len() - i,
        {
            let dsts = distinct_names(&cfg.mappings[i].1);
            routes.push((cfg.mappings[i].0.clone(), dsts));
            i = i + 1;
        }
        Router { routes }
    }

    /// The destinations that receive the mails of `source`.
    pub fn destinations_for(&self, source: &String) -> (r: Vec<String>)
        ensures
            views(r@) == self.fanout(source@),
    {
        let mut i: usize = 0;
        proof {
            assert(self.routes@.subrange(0, self.routes@.len() as int) =~= self.routes@);
        }
        while i < self.routes.len()
            invariant
                0 <= i <= self.routes@.len(),
                fanout_of(self.routes@, source@) == fanout_of(self.routes@.subrange(i as int, self.routes@.len() as int), source@),
            decreases self.routes@.len() - i,
        {
            let ghost rest = self.routes@.subrange(i as int, self.routes@.len() as int);
            if self.routes[i].0 == *source {
                let r = clone_names(&self.routes[i].1);
                return r;
            }
            proof {
                assert(rest.subrange(1, rest.len() as int) =~= self.routes@.subrange(i + 1, self.routes@.len() as int));
            }
            i = i + 1;
        }
        Vec::new()
    }

    /// Routes one inbound message: a mail from a source goes to each of the
    /// source's destinations, a retried mail to its one destination.
    pub fn route(&self, msg: Ingress) -> (r: Vec<Delivery>)
        ensures
            msg matches Ingress::FromSource { source, mail } ==>
                delivery_views(r@) == deliveries_to(self.fanout(source@), mail@),
            msg matches Ingress::FromRetry { destination, mail } ==>
                delivery_views(r@) == seq![(destination@, mail@)],
    {
        match msg {
            Ingress::FromSource { source, mail } => {
                let dsts = self.destinations_for(&source);
                let mut r: Vec<Delivery> = Vec::new();
                let mut j: usize = 0;
                while j < dsts.len()
                    invariant
                        0 <= j <= dsts@.len(),
                        r@.len() == j,
                        forall|k: int| 0 <= k < j ==> (#[trigger] r@[k])@ == (dsts@[k]@, mail@),
                    decreases dsts@.len() - j,
                {
                    r.push(Delivery { destination: dsts[j].clone(), mail: mail.duplicate() });
                    j = j + 1;
                }
                proof {
                    assert(delivery_views(r@) =~= deliveries_to(views(dsts@), mail@));
                }
                r
            },
            Ingress::FromRetry { destination, mail } => {
                let r = vec![Delivery { destination, mail }];
                proof {
                    assert(delivery_views(r@) =~= seq![(destination@, mail@)]);
                }
                r
            },
        }
    }
}

/// What the hub's router observed on its inbound channel.
#[derive(Debug, Clone)]
pub enum RouterEvent {
    /// A message arrived.
    Message(Ingress),
    /// Nothing arrived within a tick (or, once stopping, nothing is waiting).
    Idle,
    /// Every sender is gone.
    Closed,
}

/// What the router does next.
#[derive(Debug, Clone)]
pub enum RouterAction {
    /// Put these deliveries on the destinations' queues.
    Dispatch(Vec<Delivery>),
    /// Wait for the next message.
    Wait,
    /// Close the destinations' queues and return.
    Shutdown,
}

impl Router {
    /// One turn of the router. Messages are routed whether or not the hub
    /// is stopping, so that what is already queued drains; once stopping, an
    /// empty channel closes the destinations' queues.
    pub fn router_step(&self, stopping: bool, event: RouterEvent) -> (r: RouterAction)
        ensures
            event matches RouterEvent::Message(Ingress::FromSource { source, mail }) ==>
                (r matches RouterAction::Dispatch(v) && delivery_views(v@) == deliveries_to(self.fanout(source@), mail@)),
            event matches RouterEvent::Message(Ingress::FromRetry { destination, mail }) ==>
                (r matches RouterAction::Dispatch(v) && delivery_views(v@) == seq![(destination@, mail@)]),
            event is Idle ==> (if stopping { r is Shutdown } else { r is Wait }),
            event is Closed ==> r is Shutdown,
            stopping ==> !(r is Wait),
    {
        match event {
            RouterEvent::Message(m) => RouterAction::Dispatch(self.route(m)),
            RouterEvent::Idle => if stopping { RouterAction::Shutdown } else { RouterAction::Wait },
            RouterEvent::Closed => RouterAction::Shutdown,
        }
    }
}

/// Why a destination could not deliver a mail.
#[derive(Debug, Clone)]
pub struct DeliveryError {
    pub reason: String,
}

/// What a destination worker does with a mail after one delivery attempt.
#[derive(Debug, Clone)]
pub enum WorkerAction {
    /// The mail was delivered and is dropped.
    Done,
    /// The mail goes to the retry agent, for this destination alone.
    Retry { destination: String, mail: Mail },
    /// Delivery failed and no retry agent is configured: the mail is dropped.
    Discard,
}

/// Decides the fate of a mail after destination `destination` tried to deliver it.
pub fn after_delivery(destination: String, mail: Mail, delivered: bool, retry_configured: bool) -> (r: WorkerAction)
    ensures
        delivered ==> r is Done,
        !delivered && !retry_configured ==> r is Discard,
        !delivered && retry_configured ==> (r matches WorkerAction::Retry { destination: d, mail: m }
            && d@ == destination@ && m@ == mail@),
{
    if delivered {
        WorkerAction::Done
    } else if retry_configured {
        WorkerAction::Retry { destination, mail }
    } else {
        WorkerAction::Discard
    }
}

/// A destination for trials: it fails its first `fail_n_first` deliveries
/// and accepts every later one.
#[derive(Debug, Clone)]
pub struct TestDestination {
    pub failures_left: u16,
    pub delivered: u64,
}

impl TestDestination {
    pub fn new(config: &TestDestinationConfig) -> (r: TestDestination)
        ensures
            r.failures_left == config.fail_n_first,
            r.delivered == 0,
    {
        TestDestination { failures_left: config.fail_n_first, delivered: 0 }
    }

    /// Attempts one delivery.
    pub fn deliver(&mut self, mail: &Mail) -> (r: Result<(), DeliveryError>)
        ensures
            r is Err <==> old(self).failures_left > 0,
            r is Err ==> final(self).failures_left == old(self).failures_left - 1
                && final(self).delivered == old(self).delivered,
            r is Ok ==> final(self).failures_left == 0 && final(self).delivered
                == if old(self).delivered == u64::MAX { u64::MAX as int } else { old(self).delivered + 1 },
    {
        if self.failures_left > 0 {
            self.failures_left = self.failures_left - 1;
            Err(DeliveryError { reason: String::from_str("test destination refused the mail") })
        } else {
            self.delivered = self.delivered.saturating_add(1);
            Ok(())
        }
    }
}

/// When every destination accepts on the first try, a mail of `source`
/// reaches each destination of the source's mapping exactly once: the
/// router's fan-out for the source names each of them, and none twice.
pub proof fn lemma_fanout_each_destination_once(router: Router, cfg: ConfigContainer, source: Seq<char>, i: int, d: Seq<char>)
    requires
        cfg.wf(),
        router.wf(),
        router.routes_of(cfg),
        0 <= i < cfg.mappings@.len(),
        cfg.mappings@[i].0@ == source,
        views(cfg.mappings@[i].1@).contains(d),
    ensures
        router.fanout(source).contains(d),
        router.fanout(source).no_duplicates(),
{
    lemma_fanout_first(router.routes@, cfg.mappings@, source, i);
    assert(router.routes@[i].0@ == cfg.mappings@[i].0@);
}

proof fn lemma_fanout_first(routes: Seq<(String, Vec<String>)>, maps: Seq<(String, Vec<String>)>, source: Seq<char>, i: int)
    requires
        names_of(maps).no_duplicates(),
        routes.len() == maps.len(),
        forall|k: int| 0 <= k < routes.len() ==> (#[trigger] routes[k]).0@ == maps[k].0@,
        0 <= i < routes.len(),
        routes[i].0@ == source,
    ensures
        fanout_of(routes, source) == views(routes[i].1@),
    decreases routes.len(),
{
    if routes[0].0@ == source {
        if i != 0 {
            assert(names_of(maps)[0] == names_of(maps)[i]);
        }
    } else {
        let rr = routes.subrange(1, routes.len() as int);
        let mm = maps.subrange(1, maps.len() as int);
        assert(names_of(mm) =~= names_of(maps).subrange(1, maps.len() as int));
        assert forall|a: int, b: int| 0 <= a < names_of(mm).len() && 0 <= b < names_of(mm).len() && a != b
            implies names_of(mm)[a] != names_of(mm)[b] by {
            assert(names_of(mm)[a] == names_of(maps)[a + 1]);
            assert(names_of(mm)[b] == names_of(maps)[b + 1]);
        }
        assert forall|k: int| 0 <= k < rr.len() implies (#[trigger] rr[k]).0@ == mm[k].0@ by {
            assert(rr[k] == routes[k + 1]);
        }
        lemma_fanout_first(rr, mm, source, i - 1);
    }
}

/// A mail handed back by the retry agent for destination `destination`
/// goes to that destination alone, never to the other destinations of its
/// source's mapping.
pub proof fn lemma_retry_reaches_only_its_destination(
    deliveries: Seq<Delivery>,
    destination: Seq<char>,
    mail: (Seq<char>, Seq<u8>),
    other: Seq<char>,
)
    requires
        delivery_views(deliveries) == seq![(destination, mail)],
        other != destination,
    ensures
        deliveries.len() == 1,
        deliveries[0]@ == (destination, mail),
        forall|k: int| 0 <= k < deliveries.len() ==> (#[trigger] deliveries[k]).destination@ != other,
{
    assert(delivery_views(deliveries).len() == deliveries.len());
    assert(seq![(destination, mail)].len() == 1);
    assert(delivery_views(deliveries)[0] == deliveries[0]@);
}

/// A copy of a list of names.
pub fn clone_names(v: &Vec<String>) -> (r: Vec<String>)
    ensures
        views(r@) == views(v@),
{
    let mut r: Vec<String> = Vec::new();
    let mut i: usize = 0;
    while i < v.len()
        invariant
            0 <= i <= v@.len(),
            r@ == v@.subrange(0, i as int),
        decreases v@.len() - i,
    {
        r.push(v[i].clone());
        proof {
            assert(r@ =~= v@.subrange(0, i + 1));
        }
        i = i + 1;
    }
    proof {
        assert(v@.subrange(0, v@.len() as int) =~= v@);
    }
    r
}

proof fn lemma_push_contains(s: Seq<Seq<char>>, x: Seq<char>)
    ensures
        forall|d: Seq<char>| #[trigger] s.push(x).contains(d) <==> (s.contains(d) || d == x),
{
    assert forall|d: Seq<char>| #[trigger] s.push(x).contains(d) <==> (s.contains(d) || d == x) by {
        if s.contains(d) {
            let k = choose|k: int| 0 <= k < s.len() && s[k] == d;
            assert(s.push(x)[k] == d);
        }
        if d == x {
            assert(s.push(x)[s.len() as int] == d);
        }
        if s.push(x).contains(d) {
            let k = choose|k: int| 0 <= k < s.push(x).len() && s.push(x)[k] == d;
            if k < s.len() {
                assert(s[k] == d);
            }
        }
    }
}

/// Whether `v` holds a string equal to `n`.
pub fn contains_name(v: &Vec<String>, n: &String) -> (r: bool)
    ensures
        r == views(v@).contains(n@),
{
    let mut i: usize = 0;
    while i < v.len()
        invariant
            0 <= i <= v@.len(),
            forall|k: int| 0 <= k < i ==> (#[trigger] v@[k])@ != n@,
        decreases v@.len() - i,
    {
        if v[i] == *n {
            proof {
                assert(views(v@)[i as int] == n@);
            }
            return true;
        }
        i = i + 1;
    }
    proof {
        if views(v@).contains(n@) {
            let k = choose|k: int| 0 <= k < views(v@).len() && views(v@)[k] == n@;
            assert(v@[k]@ == n@);
        }
    }
    false
}

/// The names of `v`, each once.
pub fn distinct_names(v: &Vec<String>) -> (r: Vec<String>)
    ensures
        views(r@).no_duplicates(),
        forall|d: Seq<char>| views(r@).contains(d) <==> views(v@).contains(d),
{
    let mut r: Vec<String> = Vec::new();
    let mut i: usize = 0;
    while i < v.len()
        invariant
            0 <= i <= v@.len(),
            views(r@).no_duplicates(),
            forall|d: Seq<char>| views(r@).contains(d) <==> views(v@).subrange(0, i as int).contains(d),
        decreases v@.len() - i,
    {
        let ghost before = views(r@);
        if !contains_name(&r, &v[i]) {
            r.push(v[i].clone());
            proof {
                assert(views(r@) =~= before.push(v@[i as int]@));
            }
        }
        proof {
            let prev = views(v@).subrange(0, i as int);
            assert(views(v@).subrange(0, i + 1) =~= prev.push(v@[i as int]@));
            lemma_push_contains(prev, v@[i as int]@);
            lemma_push_contains(before, v@[i as int]@);
        }
        i = i + 1;
    }
    proof {
        assert(views(v@).subrange(0, v@.len() as int) =~= views(v@));
    }
    r
}

} // verus!
