//! The profiler: a registry of named reporters driven by messages, and the decisions taken
//! on each message. The thread that receives the messages and prints the output lives with
//! the caller; everything it decides is here.

use vstd::prelude::*;
use crate::chan::{new_channel, receive, send_on};
use crate::report::{
    cycle_lines, lines_view, render_cycle, MemoryReport, MemoryReporter, MemoryReportsChan,
};

verus! {

/// Messages that can be sent to the memory profiler.
pub enum MemoryProfilerMsg<R> {
    /// Register a reporter under a name, which must differ from that of every registered
    /// reporter.
    RegisterMemoryReporter(String, R),
    /// Unregister the reporter registered under the name.
    UnregisterMemoryReporter(String),
    /// Collect and render the reports of every registered reporter.
    Print,
    /// Shut the profiler down.
    Exit,
}

/// A registry misuse: a bug in the caller, not a condition to recover from.
pub enum ProfilerError {
    /// A reporter is already registered under this name.
    NameInUse(String),
    /// No reporter is registered under this name.
    UnknownName(String),
}

/// What the receiving loop does after a message.
pub enum MsgOutcome {
    /// Go on receiving.
    Continue,
    /// Emit these lines, then go on receiving.
    Output(Vec<String>),
    /// Stop receiving.
    Stop,
}

/// A cloneable handle through which messages reach the profiler.
#[verifier::reject_recursive_types(R)]
pub struct MemoryProfilerChan<R>(pub std::sync::mpsc::Sender<MemoryProfilerMsg<R>>);

/// Relies on `std::sync::mpsc::Sender::clone`: another sender on the same channel.
#[verifier::external_body]
fn clone_sender<T>(s: &std::sync::mpsc::Sender<T>) -> std::sync::mpsc::Sender<T> {
    s.clone()
}

impl<R> Clone for MemoryProfilerChan<R> {
    fn clone(&self) -> Self {
        MemoryProfilerChan(clone_sender(&self.0))
    }
}

impl<R> MemoryProfilerChan<R> {
    /// Sends a message to the profiler. Returns `false` when the profiler has stopped; the
    /// message is then dropped.
    pub fn send(&self, msg: MemoryProfilerMsg<R>) -> bool {
        send_on(&self.0, msg)
    }
}

/// The names after registering `name`, or `None` when it is already in use.
pub open spec fn register_outcome(names: Seq<Seq<char>>, name: Seq<char>) -> Option<Seq<Seq<char>>> {
    if names.contains(name) {
        None
    } else {
        Some(names.push(name))
    }
}

/// The names after unregistering `name`, or `None` when it is not registered.
pub open spec fn unregister_outcome(names: Seq<Seq<char>>, name: Seq<char>) -> Option<Seq<Seq<char>>> {
    if names.contains(name) {
        Some(names.remove(names.index_of(name)))
    } else {
        None
    }
}

pub open spec fn no_duplicates(names: Seq<Seq<char>>) -> bool {
    forall|i: int, j: int| 0 <= i < names.len() && 0 <= j < names.len() && i != j ==> names[i] != names[j]
}

#[verifier::reject_recursive_types(R)]
pub struct MemoryProfiler<R> {
    /// The port through which messages are received.
    pub port: std::sync::mpsc::Receiver<MemoryProfilerMsg<R>>,
    /// The names of the registered reporters.
    names: Vec<String>,
    /// The registered reporters, each at the position of its name.
    reporters: Vec<R>,
}

impl<R> MemoryProfiler<R> {
    /// The names of the registered reporters, in registry order.
    pub closed spec fn names(&self) -> Seq<Seq<char>> {
        self.names@.map_values(|s: String| s@)
    }

    /// The registered reporters, each at the position of its name.
    pub closed spec fn reporters(&self) -> Seq<R> {
        self.reporters@
    }

    /// The port the profiler receives its messages on.
    pub closed spec fn receiver(&self) -> std::sync::mpsc::Receiver<MemoryProfilerMsg<R>> {
        self.port
    }

    /// One reporter per name, and no name twice.
    pub closed spec fn wf(&self) -> bool {
        &&& self.names@.len() == self.reporters@.len()
        &&& no_duplicates(self.names())
    }

    pub fn new(port: std::sync::mpsc::Receiver<MemoryProfilerMsg<R>>) -> (r: MemoryProfiler<R>)
        ensures
            r.wf(),
            r.names() == Seq::<Seq<char>>::empty(),
            r.receiver() == port,
    {
        let r = MemoryProfiler { port: port, names: Vec::new(), reporters: Vec::new() };
        proof {
            assert(r.names() =~= Seq::<Seq<char>>::empty());
        }
        r
    }

    /// The position of `name` among the registered names, if it is there.
    fn position(&self, name: &String) -> (r: Option<usize>)
        requires
            self.wf(),
        ensures
            match r {
                Some(i) => i < self.names().len() && self.names()[i as int] == name@
                    && self.names().index_of(name@) == i,
                None => !self.names().contains(name@),
            },
    {
        let mut i: usize = 0;
        while i < self.names.len()
            invariant
                self.wf(),
                i <= self.names@.len(),
                forall|m: int| 0 <= m < i ==> self.names()[m] != name@,
            decreases self.names@.len() - i,
        {
            if self.names[i] == *name {
                proof {
                    assert(self.names()[i as int] == name@);
                    assert(self.names().contains(name@));
                    let k = self.names().index_of(name@);
                    assert(self.names()[k] == name@);
                }
                return Some(i);
            }
            i = i + 1;
        }
        None
    }

    /// Registers `reporter` under `name`; refused, with nothing changed, when the name is in use.
    pub fn register(&mut self, name: String, reporter: R) -> (r: Result<(), ProfilerError>)
        requires
            old(self).wf(),
        ensures
            final(self).wf(),
            final(self).receiver() == old(self).receiver(),
            match register_outcome(old(self).names(), name@) {
                Some(names) => r is Ok && final(self).names() == names
                    && final(self).reporters() == old(self).reporters().push(reporter),
                None => r == Err::<(), ProfilerError>(ProfilerError::NameInUse(name))
                    && final(self).names() == old(self).names()
                    && final(self).reporters() == old(self).reporters(),
            },
    {
        match self.position(&name) {
            Some(_) => Err(ProfilerError::NameInUse(name)),
            None => {
                let ghost before = self.names();
                let ghost nv = name@;
                self.names.push(name);
                self.reporters.push(reporter);
                proof {
                    assert(self.names() =~= before.push(nv));
                }
                Ok(())
            },
        }
    }

    /// Unregisters the reporter registered under `name` and hands it back; refused, with
    /// nothing changed, when no reporter has that name.
    pub fn unregister(&mut self, name: String) -> (r: Result<R, ProfilerError>)
        requires
            old(self).wf(),
        ensures
            final(self).wf(),
            final(self).receiver() == old(self).receiver(),
            match unregister_outcome(old(self).names(), name@) {
                Some(names) => final(self).names() == names && r == Ok::<R, ProfilerError>(
                    old(self).reporters()[old(self).names().index_of(name@)],
                ) && final(self).reporters() == old(self).reporters().remove(
                    old(self).names().index_of(name@),
                ),
                None => r == Err::<R, ProfilerError>(ProfilerError::UnknownName(name))
                    && final(self).names() == old(self).names()
                    && final(self).reporters() == old(self).reporters(),
            },
    {
        match self.position(&name) {
            None => Err(ProfilerError::UnknownName(name)),
            Some(i) => {
                let ghost before = self.names();
                self.names.remove(i);
                let reporter = self.reporters.remove(i);
                proof {
                    assert(self.names() =~= before.remove(i as int));
                }
                Ok(reporter)
            },
        }
    }
}

impl<R: MemoryReporter> MemoryProfiler<R> {
    /// Asks every registered reporter, in registry order, for its reports through a fresh
    /// channel, and renders the cycle. A reporter that fails, or sends nothing, contributes
    /// no line.
    pub fn handle_print_msg(&self) -> (lines: Vec<String>)
        requires
            self.wf(),
        ensures
            exists|outs: Seq<Option<Vec<MemoryReport>>>|
                outs.len() == self.names().len() && lines_view(lines@) == cycle_lines(outs),
    {
        let mut outs: Vec<Option<Vec<MemoryReport>>> = Vec::new();
        let mut i: usize = 0;
        while i < self.reporters.len()
            invariant
                self.wf(),
                i <= self.reporters@.len(),
                outs@.len() == i,
            decreases self.reporters@.len() - i,
        {
            let (tx, rx) = new_channel();
            let outcome = if self.reporters[i].collect_reports(MemoryReportsChan(tx)) {
                receive(&rx)
            } else {
                None
            };
            outs.push(outcome);
            i = i + 1;
        }
        let lines = render_cycle(&outs);
        proof {
            assert(outs@.len() == self.names().len());
        }
        lines
    }

    /// Takes one message: registers, unregisters, renders a cycle, or stops. A registry
    /// misuse is refused with nothing changed.
    pub fn handle_msg(&mut self, msg: MemoryProfilerMsg<R>) -> (r: Result<MsgOutcome, ProfilerError>)
        requires
            old(self).wf(),
        ensures
            final(self).wf(),
            final(self).receiver() == old(self).receiver(),
            match msg {
                MemoryProfilerMsg::RegisterMemoryReporter(name, reporter) => match register_outcome(
                    old(self).names(),
                    name@,
                ) {
                    Some(names) => r == Ok::<MsgOutcome, ProfilerError>(MsgOutcome::Continue)
                        && final(self).names() == names
                        && final(self).reporters() == old(self).reporters().push(reporter),
                    None => r == Err::<MsgOutcome, ProfilerError>(ProfilerError::NameInUse(name))
                        && final(self).names() == old(self).names()
                        && final(self).reporters() == old(self).reporters(),
                },
                MemoryProfilerMsg::UnregisterMemoryReporter(name) => match unregister_outcome(
                    old(self).names(),
                    name@,
                ) {
                    Some(names) => r == Ok::<MsgOutcome, ProfilerError>(MsgOutcome::Continue)
                        && final(self).names() == names
                        && final(self).reporters() == old(self).reporters().remove(
                        old(self).names().index_of(name@),
                    ),
                    None => r == Err::<MsgOutcome, ProfilerError>(ProfilerError::UnknownName(name))
                        && final(self).names() == old(self).names()
                        && final(self).reporters() == old(self).reporters(),
                },
                MemoryProfilerMsg::Print => final(self).names() == old(self).names()
                    && final(self).reporters() == old(self).reporters() && exists|
                    outs: Seq<Option<Vec<MemoryReport>>>,
                |
                    outs.len() == old(self).names().len() && #[trigger] cycle_lines(outs) == match r {
                        Ok(MsgOutcome::Output(lines)) => lines_view(lines@),
                        _ => Seq::empty(),
                    } && r matches Ok(MsgOutcome::Output(_)),
                MemoryProfilerMsg::Exit => r == Ok::<MsgOutcome, ProfilerError>(MsgOutcome::Stop)
                    && final(self).names() == old(self).names()
                    && final(self).reporters() == old(self).reporters(),
            },
    {
        match msg {
            MemoryProfilerMsg::RegisterMemoryReporter(name, reporter) => {
                match self.register(name, reporter) {
                    Ok(()) => Ok(MsgOutcome::Continue),
                    Err(e) => Err(e),
                }
            },
            MemoryProfilerMsg::UnregisterMemoryReporter(name) => {
                match self.unregister(name) {
                    Ok(_) => Ok(MsgOutcome::Continue),
                    Err(e) => Err(e),
                }
            },
            MemoryProfilerMsg::Print => Ok(MsgOutcome::Output(self.handle_print_msg())),
            MemoryProfilerMsg::Exit => Ok(MsgOutcome::Stop),
        }
    }
}

/// Registering a name that is not in use succeeds, and registering it once more is refused;
/// registering two distinct fresh names keeps both.
pub proof fn lemma_register_twice(names: Seq<Seq<char>>, a: Seq<char>, b: Seq<char>)
    requires
        !names.contains(a),
    ensures
        register_outcome(names, a) == Some(names.push(a)),
        register_outcome(names.push(a), a) is None,
        !names.contains(b) && a != b ==> register_outcome(names.push(a), b) == Some(
            names.push(a).push(b),
        ) && names.push(a).push(b).contains(a) && names.push(a).push(b).contains(b),
{
    assert(names.push(a)[names.len() as int] == a);
    if !names.contains(b) && a != b {
        assert(!names.push(a).contains(b)) by {
            if names.push(a).contains(b) {
                let k = choose|k: int| 0 <= k < names.push(a).len() && names.push(a)[k] == b;
                assert(names[k] == b);
            }
        }
        let nb = names.push(a).push(b);
        assert(nb[names.len() as int] == a);
        assert(nb[names.len() + 1int] == b);
    }
}

/// Unregistering a name that is not registered is refused; unregistering a registered name
/// removes it, and nothing else.
pub proof fn lemma_unregister(names: Seq<Seq<char>>, a: Seq<char>)
    requires
        no_duplicates(names),
    ensures
        !names.contains(a) ==> unregister_outcome(names, a) is None,
        names.contains(a) ==> (unregister_outcome(names, a) matches Some(rest) && !rest.contains(a)
            && rest.len() + 1 == names.len() && rest.to_set() == names.to_set().remove(a)),
        !names.contains(a) ==> unregister_outcome(names.push(a), a) == Some(names),
{
    if names.contains(a) {
        lemma_remove_registered(names, a);
    } else {
        let np = names.push(a);
        assert(np[names.len() as int] == a);
        assert(np.contains(a));
        let k = np.index_of(a);
        if k < names.len() {
            assert(names[k] == a);
        }
        assert(np.remove(names.len() as int) =~= names);
    }
}

proof fn lemma_remove_registered(names: Seq<Seq<char>>, a: Seq<char>)
    requires
        no_duplicates(names),
        names.contains(a),
    ensures
        no_duplicates(names.remove(names.index_of(a))),
        !names.remove(names.index_of(a)).contains(a),
        names.remove(names.index_of(a)).len() + 1 == names.len(),
        names.remove(names.index_of(a)).to_set() == names.to_set().remove(a),
{
    let k = names.index_of(a);
    let rest = names.remove(k);
    assert forall|i: int| 0 <= i < rest.len() implies rest[i] != a && rest[i] == (if i < k {
        names[i]
    } else {
        names[i + 1]
    }) by {
        if i < k {
            assert(names[i] != names[k]);
        } else {
            assert(names[i + 1] != names[k]);
        }
    }
    assert(rest.to_set() =~= names.to_set().remove(a)) by {
        assert forall|x: Seq<char>| rest.to_set().contains(x) <==> names.to_set().remove(a).contains(x) by {
            if rest.to_set().contains(x) {
                let i = choose|i: int| 0 <= i < rest.len() && rest[i] == x;
                assert(rest.contains(x));
            }
            if names.to_set().remove(a).contains(x) {
                assert(names.contains(x));
                let j = choose|j: int| 0 <= j < names.len() && names[j] == x;
                if j < k {
                    assert(rest[j] == x);
                } else {
                    assert(j != k);
                    assert(rest[j - 1] == x);
                }
                assert(rest.contains(x));
            }
        }
    }
}

/// Applies register (`true`) and unregister (`false`) steps in order to the registered names;
/// `None` when a step is refused.
pub open spec fn apply_ops(names: Seq<Seq<char>>, ops: Seq<(bool, Seq<char>)>) -> Option<Seq<Seq<char>>>
    decreases ops.len(),
{
    if ops.len() == 0 {
        Some(names)
    } else {
        match apply_ops(names, ops.drop_last()) {
            None => None,
            Some(ns) => if ops.last().0 {
                register_outcome(ns, ops.last().1)
            } else {
                unregister_outcome(ns, ops.last().1)
            },
        }
    }
}

/// The set of names that register and unregister steps leave behind, as sets see it.
pub open spec fn ops_set(ops: Seq<(bool, Seq<char>)>) -> Set<Seq<char>>
    decreases ops.len(),
{
    if ops.len() == 0 {
        Set::empty()
    } else if ops.last().0 {
        ops_set(ops.drop_last()).insert(ops.last().1)
    } else {
        ops_set(ops.drop_last()).remove(ops.last().1)
    }
}

/// After any sequence of accepted register and unregister steps from an empty registry, the
/// registered names are exactly the expected set, each once; a cycle asks one reporter per
/// registered name.
pub proof fn lemma_registry_holds_exactly(ops: Seq<(bool, Seq<char>)>)
    requires
        apply_ops(Seq::empty(), ops) is Some,
    ensures
        apply_ops(Seq::empty(), ops)->0.to_set() == ops_set(ops),
        no_duplicates(apply_ops(Seq::empty(), ops)->0),
    decreases ops.len(),
{
    if ops.len() == 0 {
        assert(Seq::<Seq<char>>::empty().to_set() =~= Set::empty());
    } else {
        lemma_registry_holds_exactly(ops.drop_last());
        let ns = apply_ops(Seq::empty(), ops.drop_last())->0;
        let n = ops.last().1;
        if ops.last().0 {
            let r = ns.push(n);
            assert(r.to_set() =~= ns.to_set().insert(n)) by {
                assert forall|x: Seq<char>| r.to_set().contains(x) <==> (x == n || ns.contains(x)) by {
                    if r.contains(x) {
                        let i = choose|i: int| 0 <= i < r.len() && r[i] == x;
                        if i < ns.len() {
                            assert(ns[i] == x);
                        }
                    }
                    if ns.contains(x) {
                        let i = choose|i: int| 0 <= i < ns.len() && ns[i] == x;
                        assert(r[i] == x);
                    }
                    if x == n {
                        assert(r[ns.len() as int] == x);
                    }
                }
            }
            assert forall|i: int, j: int| 0 <= i < r.len() && 0 <= j < r.len() && i != j implies r[i] != r[j] by {
                if i == ns.len() {
                    assert(!ns.contains(n));
                    assert(ns[j] == r[j]);
                } else if j == ns.len() {
                    assert(ns[i] == r[i]);
                }
            }
        } else {
            lemma_remove_registered(ns, n);
        }
    }
}

} // verus!
