//! The startup configuration: which ports to listen on, and where the metrics
//! are served, if anywhere.

use vstd::prelude::*;
use vstd::string::*;
use crate::port_text::{parse_port, port_of};

verus! {

/// Why a configuration is refused. Nothing has been opened when one of these
/// is returned.
#[derive(Clone, Copy, Debug, PartialEq, Eq, Structural)]
pub enum ConfigError {
    /// No list of ports was given at all.
    MissingPorts,
    /// An entry of the list of ports is not a port number.
    InvalidPort,
    /// The text given for the metrics port is not a port number.
    InvalidMetricsPort,
    /// The list of ports is empty.
    NoPorts,
    /// This port occurs more than once in the list.
    DuplicatePort(u16),
    /// The metrics port, this one, is also in the list of ports.
    MetricsPortCollision(u16),
}

/// The entries of a comma separated list: the stretches of `text` between its
/// commas. A text without a comma is one entry, the empty text too.
pub open spec fn entries(text: Seq<char>) -> Seq<Seq<char>>
    decreases text.len(),
{
    if text.len() == 0 {
        seq![Seq::empty()]
    } else {
        let before = entries(text.drop_last());
        if text.last() == ',' {
            before.push(Seq::empty())
        } else {
            before.drop_last().push(before.last().push(text.last()))
        }
    }
}

/// Whether every entry of `list` is a port number.
pub open spec fn all_ports(list: Seq<Seq<char>>) -> bool {
    forall|k: int| 0 <= k < list.len() ==> (#[trigger] port_of(list[k])) is Some
}

/// The ports that a comma separated list writes, if every entry is a port
/// number.
pub open spec fn ports_of(text: Seq<char>) -> Option<Seq<u16>> {
    let list = entries(text);
    if all_ports(list) {
        Some(Seq::new(list.len(), |k: int| port_of(list[k]).unwrap()))
    } else {
        None
    }
}

/// The place of the first port in `ports` that repeats an earlier one; the
/// length of `ports` if there is none.
pub open spec fn first_repeat(ports: Seq<u16>) -> int
    decreases ports.len(),
{
    if ports.len() == 0 {
        0
    } else {
        let earlier = first_repeat(ports.drop_last());
        if earlier < ports.len() - 1 {
            earlier
        } else if ports.drop_last().contains(ports.last()) {
            ports.len() - 1
        } else {
            ports.len() as int
        }
    }
}

/// What is wrong with listening on `ports` and serving metrics on
/// `metrics_port`, if anything: the list must not be empty, no port may occur
/// twice in it, and the metrics port may not be one of them. The first of
/// these that fails is reported.
pub open spec fn setup_fault(ports: Seq<u16>, metrics_port: Option<u16>) -> Option<ConfigError> {
    if ports.len() == 0 {
        Some(ConfigError::NoPorts)
    } else if first_repeat(ports) < ports.len() {
        Some(ConfigError::DuplicatePort(ports[first_repeat(ports)]))
    } else if metrics_port is Some && ports.contains(metrics_port.unwrap()) {
        Some(ConfigError::MetricsPortCollision(metrics_port.unwrap()))
    } else {
        None
    }
}

/// The setup itself where nothing is wrong with it, else what is wrong.
pub open spec fn check_setup(ports: Seq<u16>, metrics_port: Option<u16>) -> Result<
    (Seq<u16>, Option<u16>),
    ConfigError,
> {
    match setup_fault(ports, metrics_port) {
        Some(fault) => Err(fault),
        None => Ok((ports, metrics_port)),
    }
}

/// Whether `ports` and `metrics_port` can be started: at least one port, none
/// twice, and the metrics port not among them.
pub open spec fn valid_setup(ports: Seq<u16>, metrics_port: Option<u16>) -> bool {
    ports.len() > 0 && ports.no_duplicates() && (metrics_port is Some ==> !ports.contains(
        metrics_port.unwrap(),
    ))
}

/// What the two texts of the environment configure: the list of ports must be
/// there and every entry a port number; the metrics port, where one is given,
/// must be a port number too; and the two must be a valid setup.
pub open spec fn setup_of(ports_text: Option<Seq<char>>, metrics_text: Option<Seq<char>>) -> Result<
    (Seq<u16>, Option<u16>),
    ConfigError,
> {
    if ports_text is None {
        Err(ConfigError::MissingPorts)
    } else if ports_of(ports_text.unwrap()) is None {
        Err(ConfigError::InvalidPort)
    } else if metrics_text is Some && port_of(metrics_text.unwrap()) is None {
        Err(ConfigError::InvalidMetricsPort)
    } else {
        let ports = ports_of(ports_text.unwrap()).unwrap();
        let metrics_port = if metrics_text is Some {
            port_of(metrics_text.unwrap())
        } else {
            None
        };
        check_setup(ports, metrics_port)
    }
}

/// There is no repeat in `ports` exactly if no port occurs twice.
pub proof fn lemma_first_repeat(ports: Seq<u16>)
    ensures
        0 <= first_repeat(ports) <= ports.len(),
        first_repeat(ports) == ports.len() <==> ports.no_duplicates(),
        first_repeat(ports) < ports.len() ==> ports.take(first_repeat(ports)).no_duplicates()
            && ports.take(first_repeat(ports)).contains(ports[first_repeat(ports)]),
    decreases ports.len(),
{
    if ports.len() > 0 {
        let front = ports.drop_last();
        let n = ports.len() - 1;
        lemma_first_repeat(front);
        let earlier = first_repeat(front);
        if earlier < n {
            assert(front.take(earlier) =~= ports.take(earlier));
            let i = choose|i: int| 0 <= i < earlier && front.take(earlier)[i] == front[earlier];
            assert(ports[i] == ports[earlier]);
        } else if front.contains(ports.last()) {
            assert(ports.take(n) =~= front);
            let i = choose|i: int| 0 <= i < n && front[i] == ports.last();
            assert(ports[i] == ports[n]);
        } else {
            assert forall|i: int, j: int| 0 <= i < ports.len() && 0 <= j < ports.len() && i
                != j implies ports[i] != ports[j] by {
                if i < n && j < n {
                    assert(front[i] != front[j]);
                } else if i < n {
                    assert(front[i] == ports[i]);
                } else {
                    assert(front[j] == ports[j]);
                }
            }
        }
    }
}

/// A setup is valid exactly if nothing is wrong with it.
pub proof fn lemma_valid_setup(ports: Seq<u16>, metrics_port: Option<u16>)
    ensures
        valid_setup(ports, metrics_port) <==> setup_fault(ports, metrics_port) is None,
{
    lemma_first_repeat(ports);
}

/// Reads a comma separated list of ports.
pub fn parse_ports(text: &str) -> (ports: Option<Vec<u16>>)
    ensures
        match ports {
            Some(list) => ports_of(text@) == Some(list@),
            None => ports_of(text@) is None,
        },
{
    let n: usize = text.unicode_len();
    let mut ports: Vec<u16> = Vec::new();
    let mut good: bool = true;
    let mut start: usize = 0;
    let mut i: usize = 0;
    let ghost mut closed: Seq<Seq<char>> = Seq::empty();
    proof {
        assert(text@.take(0) =~= Seq::<char>::empty());
        assert(closed.push(text@.subrange(0, 0)) =~= seq![Seq::<char>::empty()]);
    }
    while i < n
        invariant
            n == text@.len(),
            start <= i <= n,
            entries(text@.take(i as int)) == closed.push(text@.subrange(start as int, i as int)),
            good <==> all_ports(closed),
            good ==> ports@.len() == closed.len(),
            good ==> forall|k: int|
                0 <= k < closed.len() ==> Some(#[trigger] ports@[k]) == port_of(closed[k]),
        decreases n - i,
    {
        let c: char = text.get_char(i);
        let ghost open = text@.subrange(start as int, i as int);
        proof {
            let upto = text@.take(i + 1);
            assert(upto.drop_last() =~= text@.take(i as int));
            assert(upto.last() == c);
            assert(closed.push(open).drop_last() =~= closed);
        }
        if c == ',' {
            let entry = text.substring_char(start, i);
            let port = parse_port(entry);
            proof {
                let longer = closed.push(open);
                assert(text@.subrange(i + 1, i + 1) =~= Seq::<char>::empty());
                assert forall|k: int| 0 <= k < longer.len() && k != closed.len() implies longer[k]
                    == closed[k] by {}
                if all_ports(longer) {
                    assert forall|k: int| 0 <= k < closed.len() implies (#[trigger] port_of(
                        closed[k],
                    )) is Some by {
                        assert(port_of(longer[k]) is Some);
                    }
                    assert(port_of(longer[closed.len() as int]) is Some);
                }
                closed = longer;
            }
            match port {
                Some(p) => {
                    if good {
                        ports.push(p);
                    }
                },
                None => {
                    good = false;
                },
            }
            start = i + 1;
        } else {
            proof {
                assert(open.push(c) =~= text@.subrange(start as int, i + 1));
            }
        }
        i = i + 1;
    }
    let entry = text.substring_char(start, n);
    let port = parse_port(entry);
    proof {
        assert(text@.take(n as int) =~= text@);
        let list = entries(text@);
        assert(list == closed.push(entry@));
        assert forall|k: int| 0 <= k < closed.len() implies list[k] == closed[k] by {}
        if all_ports(list) {
            assert forall|k: int| 0 <= k < closed.len() implies (#[trigger] port_of(closed[k]))
                is Some by {
                assert(port_of(list[k]) is Some);
            }
            assert(port_of(list[closed.len() as int]) is Some);
        }
    }
    match port {
        Some(p) => {
            if good {
                ports.push(p);
                proof {
                    let list = entries(text@);
                    assert(all_ports(list));
                    assert(ports@ =~= Seq::new(list.len(), |k: int| port_of(list[k]).unwrap()));
                }
                Some(ports)
            } else {
                None
            }
        },
        None => None,
    }
}

/// A configuration that can be started: at least one port to listen on, none
/// of them twice, and the metrics port, if there is one, not among them.
#[derive(Debug)]
pub struct Config {
    ports: Vec<u16>,
    metrics_port: Option<u16>,
}

impl Config {
    #[verifier::type_invariant]
    spec fn can_start(&self) -> bool {
        valid_setup(self.ports@, self.metrics_port)
    }

    /// The ports to listen on, in the order in which they were given.
    pub closed spec fn listen_ports(&self) -> Seq<u16> {
        self.ports@
    }

    /// The port on which the metrics are served, if they are.
    pub closed spec fn metrics(&self) -> Option<u16> {
        self.metrics_port
    }

    /// The ports and the metrics port together.
    pub open spec fn setup(&self) -> (Seq<u16>, Option<u16>) {
        (self.listen_ports(), self.metrics())
    }

    /// Checks a setup and keeps it if nothing is wrong with it.
    pub fn new(ports: Vec<u16>, metrics_port: Option<u16>) -> (checked: Result<Config, ConfigError>)
        ensures
            checked_setup(checked) == check_setup(ports@, metrics_port),
    {
        let n: usize = ports.len();
        if n == 0 {
            return Err(ConfigError::NoPorts);
        }
        let mut j: usize = 0;
        while j < n
            invariant
                n == ports@.len(),
                j <= n,
                first_repeat(ports@.take(j as int)) == j,
            decreases n - j,
        {
            let candidate: u16 = ports[j];
            let mut i: usize = 0;
            while i < j
                invariant
                    n == ports@.len(),
                    j < n,
                    i <= j,
                    candidate == ports@[j as int],
                    first_repeat(ports@.take(j as int)) == j,
                    forall|k: int| 0 <= k < i ==> ports@[k] != candidate,
                decreases j - i,
            {
                if ports[i] == candidate {
                    proof {
                        let upto = ports@.take(j + 1);
                        assert(upto.drop_last() =~= ports@.take(j as int));
                        assert(upto.drop_last()[i as int] == upto.last());
                        assert(upto.drop_last().contains(upto.last()));
                        assert(first_repeat(upto) == j);
                        lemma_repeat_stays(ports@, j + 1);
                    }
                    return Err(ConfigError::DuplicatePort(candidate));
                }
                i = i + 1;
            }
            proof {
                let upto = ports@.take(j + 1);
                assert(upto.drop_last() =~= ports@.take(j as int));
                assert(!upto.drop_last().contains(upto.last()));
            }
            j = j + 1;
        }
        proof {
            assert(ports@.take(n as int) =~= ports@);
            lemma_first_repeat(ports@);
        }
        match metrics_port {
            Some(m) => {
                let mut i: usize = 0;
                while i < n
                    invariant
                        n == ports@.len(),
                        i <= n,
                        first_repeat(ports@) == n,
                        metrics_port == Some(m),
                        forall|k: int| 0 <= k < i ==> ports@[k] != m,
                    decreases n - i,
                {
                    if ports[i] == m {
                        proof {
                            assert(ports@[i as int] == m);
                            assert(ports@.contains(m));
                        }
                        return Err(ConfigError::MetricsPortCollision(m));
                    }
                    i = i + 1;
                }
            },
            None => {},
        }
        Ok(Config { ports, metrics_port })
    }

    /// Reads the configuration from the two texts of the environment, either of
    /// which may be missing.
    pub fn from_text(ports_text: Option<&str>, metrics_text: Option<&str>) -> (checked: Result<
        Config,
        ConfigError,
    >)
        ensures
            checked_setup(checked) == setup_of(text_view(ports_text), text_view(metrics_text)),
    {
        let ports = match ports_text {
            Some(text) => match parse_ports(text) {
                Some(ports) => ports,
                None => {
                    return Err(ConfigError::InvalidPort);
                },
            },
            None => {
                return Err(ConfigError::MissingPorts);
            },
        };
        let metrics_port = match metrics_text {
            Some(text) => match parse_port(text) {
                Some(port) => Some(port),
                None => {
                    return Err(ConfigError::InvalidMetricsPort);
                },
            },
            None => None,
        };
        Config::new(ports, metrics_port)
    }

    /// The ports to listen on.
    pub fn ports(&self) -> (ports: &Vec<u16>)
        ensures
            ports@ == self.listen_ports(),
            valid_setup(self.listen_ports(), self.metrics()),
    {
        proof {
            use_type_invariant(self);
        }
        &self.ports
    }

    /// The port on which the metrics are served, if they are.
    pub fn metrics_port(&self) -> (port: Option<u16>)
        ensures
            port == self.metrics(),
            valid_setup(self.listen_ports(), self.metrics()),
    {
        proof {
            use_type_invariant(self);
        }
        self.metrics_port
    }
}

/// What a checked configuration holds, or why there is none.
pub open spec fn checked_setup(checked: Result<Config, ConfigError>) -> Result<
    (Seq<u16>, Option<u16>),
    ConfigError,
> {
    match checked {
        Ok(config) => Ok(config.setup()),
        Err(fault) => Err(fault),
    }
}

/// The text behind an optional string slice.
pub open spec fn text_view(text: Option<&str>) -> Option<Seq<char>> {
    match text {
        Some(t) => Some(t@),
        None => None,
    }
}

/// A repeat within the first `k` ports is the first repeat of the whole list.
pub proof fn lemma_repeat_stays(ports: Seq<u16>, k: int)
    requires
        0 <= k <= ports.len(),
        first_repeat(ports.take(k)) < k,
    ensures
        first_repeat(ports) == first_repeat(ports.take(k)),
    decreases ports.len() - k,
{
    if k == ports.len() {
        assert(ports.take(k) =~= ports);
    } else {
        let longer = ports.take(k + 1);
        assert(longer.drop_last() =~= ports.take(k));
        lemma_repeat_stays(ports, k + 1);
    }
}

} // verus!
