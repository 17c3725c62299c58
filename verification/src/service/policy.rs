//! Admission control and routing of requests.

use vstd::prelude::*;

use crate::catalog::{command_descriptor, registered, OperationSafety};
use crate::operation::{CommandCode, Request, RequestView};
use crate::service::queue_set::QueueId;

verus! {

/// Immutable command information supplied to an admission policy.
#[derive(Debug, Clone, Copy)]
pub struct CommandContext<'a> {
    /// Complete request before it is accepted by a queue.
    pub request: &'a Request,
    /// Effective retry-safety classification, including an explicit request declaration.
    pub safety: OperationSafety,
    /// Safety from the built-in registry, or `None` for an unknown command.
    pub catalog_safety: Option<OperationSafety>,
    /// Queue selected after command routing.
    pub queue: QueueId,
}

/// What the built-in registry says of a command.
pub open spec fn registered_safety(command: CommandCode) -> Option<OperationSafety> {
    match registered(command.0) {
        Some(entry) => Some(entry.safety),
        None => None,
    }
}

/// How safe a request is to repeat: as it declares itself, else as the
/// registry says, else not at all.
pub open spec fn effective_safety(request: RequestView) -> OperationSafety {
    match request.retry_safety {
        Some(safety) => safety,
        None => match registered_safety(request.command) {
            Some(safety) => safety,
            None => OperationSafety::Action,
        },
    }
}

pub(crate) fn catalog_safety(request: &Request) -> (safety: Option<OperationSafety>)
    ensures
        safety == registered_safety(request@.command),
{
    match command_descriptor(request.command) {
        Some(entry) => Some(entry.safety),
        None => None,
    }
}

pub(crate) fn resolved_safety(request: &Request) -> (safety: OperationSafety)
    ensures
        safety == effective_safety(request@),
{
    match request.retry_safety {
        Some(safety) => safety,
        None => match catalog_safety(request) {
            Some(safety) => safety,
            None => OperationSafety::Action,
        },
    }
}

impl<'a> CommandContext<'a> {
    /// Describes a request on its way to a queue.
    pub fn new(request: &'a Request, queue: QueueId) -> (context: Self)
        ensures
            context.request == request,
            context.safety == effective_safety(request@),
            context.catalog_safety == registered_safety(request@.command),
            context.queue == queue,
    {
        CommandContext {
            request,
            safety: resolved_safety(request),
            catalog_safety: catalog_safety(request),
            queue,
        }
    }
}

fn lists(commands: &Vec<CommandCode>, command: CommandCode) -> (found: bool)
    ensures
        found == commands@.contains(command),
{
    let mut index: usize = 0;
    while index < commands.len()
        invariant
            index <= commands@.len(),
            forall|at: int| 0 <= at < index ==> commands@[at] != command,
        decreases commands@.len() - index,
    {
        if commands[index] == command {
            assert(commands@[index as int] == command);
            return true;
        }
        index += 1;
    }
    false
}

/// What application-defined rules say of one request, by the number of the rule.
#[derive(Debug)]
pub struct Decisions {
    /// Verdicts of admission rules. A rule without one rejects.
    pub verdicts: Vec<bool>,
    /// Queues chosen by routing rules. A rule without one keeps the queue.
    pub routes: Vec<QueueId>,
}

impl Decisions {
    /// Decisions where no application-defined rule exists.
    pub fn none() -> (decisions: Self)
        ensures
            decisions.verdicts@ == Seq::<bool>::empty(),
            decisions.routes@ == Seq::<QueueId>::empty(),
    {
        Decisions { verdicts: Vec::new(), routes: Vec::new() }
    }
}

/// Admission policy evaluated before a request occupies queue capacity.
#[derive(Debug)]
pub enum CommandPolicy {
    /// Every request is admitted.
    AllowAll,
    /// Commands that the registry calls read-only are admitted.
    ReadOnly,
    /// Commands that the registry does not call actions are admitted.
    RetrySafe,
    /// Listed commands are admitted.
    AllowCommands(Vec<CommandCode>),
    /// Commands that are not listed are admitted.
    DenyCommands(Vec<CommandCode>),
    /// Listed commands are admitted to one queue, all commands to the others.
    QueueAllowlist(QueueId, Vec<CommandCode>),
    /// Both policies admit.
    And(Box<CommandPolicy>, Box<CommandPolicy>),
    /// One of the policies admits.
    Or(Box<CommandPolicy>, Box<CommandPolicy>),
    /// The application-defined rule with a number admits.
    Custom(usize),
}

fn copy_commands(commands: &Vec<CommandCode>) -> (copy: Vec<CommandCode>)
    ensures
        copy@ == commands@,
{
    let mut copy: Vec<CommandCode> = Vec::new();
    let mut index: usize = 0;
    while index < commands.len()
        invariant
            index <= commands@.len(),
            copy@ == commands@.take(index as int),
        decreases commands@.len() - index,
    {
        copy.push(commands[index]);
        index += 1;
        assert(copy@ =~= commands@.take(index as int));
    }
    assert(commands@.take(index as int) =~= commands@);
    copy
}

impl Clone for CommandPolicy {
    fn clone(&self) -> (copy: Self)
        ensures
            forall|command: CommandCode, queue: QueueId, verdicts: Seq<bool>| #[trigger]
                copy.admitted(command, queue, verdicts) == self.admitted(command, queue, verdicts),
        decreases self,
    {
        match self {
            CommandPolicy::AllowAll => CommandPolicy::AllowAll,
            CommandPolicy::ReadOnly => CommandPolicy::ReadOnly,
            CommandPolicy::RetrySafe => CommandPolicy::RetrySafe,
            CommandPolicy::AllowCommands(commands) => CommandPolicy::AllowCommands(
                copy_commands(commands),
            ),
            CommandPolicy::DenyCommands(commands) => CommandPolicy::DenyCommands(
                copy_commands(commands),
            ),
            CommandPolicy::QueueAllowlist(queue, commands) => CommandPolicy::QueueAllowlist(
                *queue,
                copy_commands(commands),
            ),
            CommandPolicy::And(first, second) => {
                let left = (&**first).clone();
                let right = (&**second).clone();
                let copy = CommandPolicy::And(Box::new(left), Box::new(right));
                assert forall|command: CommandCode, queue: QueueId, verdicts: Seq<bool>| #[trigger]
                    copy.admitted(command, queue, verdicts) == self.admitted(
                        command,
                        queue,
                        verdicts,
                    ) by {
                    assert(left.admitted(command, queue, verdicts) == first.admitted(
                        command,
                        queue,
                        verdicts,
                    ));
                    assert(right.admitted(command, queue, verdicts) == second.admitted(
                        command,
                        queue,
                        verdicts,
                    ));
                }
                copy
            },
            CommandPolicy::Or(first, second) => {
                let left = (&**first).clone();
                let right = (&**second).clone();
                let copy = CommandPolicy::Or(Box::new(left), Box::new(right));
                assert forall|command: CommandCode, queue: QueueId, verdicts: Seq<bool>| #[trigger]
                    copy.admitted(command, queue, verdicts) == self.admitted(
                        command,
                        queue,
                        verdicts,
                    ) by {
                    assert(left.admitted(command, queue, verdicts) == first.admitted(
                        command,
                        queue,
                        verdicts,
                    ));
                    assert(right.admitted(command, queue, verdicts) == second.admitted(
                        command,
                        queue,
                        verdicts,
                    ));
                }
                copy
            },
            CommandPolicy::Custom(rule) => CommandPolicy::Custom(*rule),
        }
    }
}

impl Default for CommandPolicy {
    fn default() -> (policy: Self)
        ensures
            policy == CommandPolicy::AllowAll,
    {
        CommandPolicy::allow_all()
    }
}

impl CommandPolicy {
    /// Whether the policy admits a command to a queue.
    pub open spec fn admitted(
        self,
        command: CommandCode,
        queue: QueueId,
        verdicts: Seq<bool>,
    ) -> bool
        decreases self,
    {
        match self {
            CommandPolicy::AllowAll => true,
            CommandPolicy::ReadOnly => registered_safety(command) == Some(
                OperationSafety::ReadOnly,
            ),
            CommandPolicy::RetrySafe => registered_safety(command) is Some && registered_safety(
                command,
            ) != Some(OperationSafety::Action),
            CommandPolicy::AllowCommands(commands) => commands@.contains(command),
            CommandPolicy::DenyCommands(commands) => !commands@.contains(command),
            CommandPolicy::QueueAllowlist(restricted, commands) => queue != restricted
                || commands@.contains(command),
            CommandPolicy::And(first, second) => first.admitted(command, queue, verdicts)
                && second.admitted(command, queue, verdicts),
            CommandPolicy::Or(first, second) => first.admitted(command, queue, verdicts)
                || second.admitted(command, queue, verdicts),
            CommandPolicy::Custom(rule) => rule < verdicts.len() && verdicts[rule as int],
        }
    }

    /// Admits every valid request.
    pub fn allow_all() -> (policy: Self)
        ensures
            policy == CommandPolicy::AllowAll,
    {
        CommandPolicy::AllowAll
    }

    /// Admits only commands registered by the library as read-only.
    ///
    /// An explicit retry-safety override on [`Request`] cannot bypass this policy. Unknown
    /// vendor commands require a separate explicit allow-list or custom policy.
    pub fn read_only() -> (policy: Self)
        ensures
            policy == CommandPolicy::ReadOnly,
    {
        CommandPolicy::ReadOnly
    }

    /// Admits commands registered as read-only or idempotent writes, but rejects actions and
    /// unknown commands regardless of their caller-declared retry safety.
    pub fn retry_safe() -> (policy: Self)
        ensures
            policy == CommandPolicy::RetrySafe,
    {
        CommandPolicy::RetrySafe
    }

    /// Admits only the explicitly listed logical command numbers.
    pub fn allow_commands(commands: Vec<CommandCode>) -> (policy: Self)
        ensures
            policy == CommandPolicy::AllowCommands(commands),
    {
        CommandPolicy::AllowCommands(commands)
    }

    /// Rejects the explicitly listed logical command numbers and admits every other command.
    pub fn deny_commands(commands: Vec<CommandCode>) -> (policy: Self)
        ensures
            policy == CommandPolicy::DenyCommands(commands),
    {
        CommandPolicy::DenyCommands(commands)
    }

    /// Restricts one effective queue to an allow-list and leaves every other queue open.
    ///
    /// Routing is evaluated first, so the policy observes the queue that will actually receive
    /// the request.
    pub fn queue_allowlist(queue: QueueId, commands: Vec<CommandCode>) -> (policy: Self)
        ensures
            policy == CommandPolicy::QueueAllowlist(queue, commands),
    {
        CommandPolicy::QueueAllowlist(queue, commands)
    }

    /// Requires both admission policies to accept a request.
    pub fn and(self, other: Self) -> (policy: Self)
        ensures
            policy == CommandPolicy::And(Box::new(self), Box::new(other)),
    {
        CommandPolicy::And(Box::new(self), Box::new(other))
    }

    /// Accepts a request when either admission policy accepts it.
    pub fn or(self, other: Self) -> (policy: Self)
        ensures
            policy == CommandPolicy::Or(Box::new(self), Box::new(other)),
    {
        CommandPolicy::Or(Box::new(self), Box::new(other))
    }

    /// Leaves the decision to an application-defined rule.
    pub fn custom(rule: usize) -> (policy: Self)
        ensures
            policy == CommandPolicy::Custom(rule),
    {
        CommandPolicy::Custom(rule)
    }

    /// Reports whether the policy admits a request to its queue.
    pub fn admits(&self, context: CommandContext<'_>, decisions: &Decisions) -> (admitted: bool)
        requires
            context.catalog_safety == registered_safety(context.request@.command),
        ensures
            admitted == self.admitted(
                context.request@.command,
                context.queue,
                decisions.verdicts@,
            ),
        decreases self,
    {
        match self {
            CommandPolicy::AllowAll => true,
            CommandPolicy::ReadOnly => match context.catalog_safety {
                Some(safety) => safety == OperationSafety::ReadOnly,
                None => false,
            },
            CommandPolicy::RetrySafe => match context.catalog_safety {
                Some(safety) => safety != OperationSafety::Action,
                None => false,
            },
            CommandPolicy::AllowCommands(commands) => lists(commands, context.request.command),
            CommandPolicy::DenyCommands(commands) => !lists(commands, context.request.command),
            CommandPolicy::QueueAllowlist(queue, commands) => context.queue != *queue || lists(
                commands,
                context.request.command,
            ),
            CommandPolicy::And(first, second) => first.admits(context, decisions)
                && second.admits(context, decisions),
            CommandPolicy::Or(first, second) => first.admits(context, decisions) || second.admits(
                context,
                decisions,
            ),
            CommandPolicy::Custom(rule) => *rule < decisions.verdicts.len()
                && decisions.verdicts[*rule],
        }
    }
}

/// Command-to-queue routing applied before admission checks.
#[derive(Debug)]
pub enum CommandRouting {
    /// A request stays in the queue that its caller chose.
    PreserveRequested,
    /// Listed commands go to one queue.
    CommandsTo(QueueId, Vec<CommandCode>),
    /// The application-defined rule with a number chooses.
    Custom(usize),
}

impl Clone for CommandRouting {
    fn clone(&self) -> (copy: Self)
        ensures
            forall|command: CommandCode, requested: QueueId, routes: Seq<QueueId>| #[trigger]
                copy.routed(command, requested, routes) == self.routed(command, requested, routes),
    {
        match self {
            CommandRouting::PreserveRequested => CommandRouting::PreserveRequested,
            CommandRouting::CommandsTo(queue, commands) => CommandRouting::CommandsTo(
                *queue,
                copy_commands(commands),
            ),
            CommandRouting::Custom(rule) => CommandRouting::Custom(*rule),
        }
    }
}

impl Default for CommandRouting {
    fn default() -> (routing: Self)
        ensures
            routing == CommandRouting::PreserveRequested,
    {
        CommandRouting::preserve_requested()
    }
}

impl CommandRouting {
    /// The queue that gets a command.
    pub open spec fn routed(
        self,
        command: CommandCode,
        requested: QueueId,
        routes: Seq<QueueId>,
    ) -> QueueId {
        match self {
            CommandRouting::PreserveRequested => requested,
            CommandRouting::CommandsTo(queue, commands) => if commands@.contains(command) {
                queue
            } else {
                requested
            },
            CommandRouting::Custom(rule) => if rule < routes.len() {
                routes[rule as int]
            } else {
                requested
            },
        }
    }

    /// Preserves the queue supplied by the caller.
    pub fn preserve_requested() -> (routing: Self)
        ensures
            routing == CommandRouting::PreserveRequested,
    {
        CommandRouting::PreserveRequested
    }

    /// Routes listed commands to one queue and leaves every other request in its selected queue.
    pub fn commands_to(queue: QueueId, commands: Vec<CommandCode>) -> (routing: Self)
        ensures
            routing == CommandRouting::CommandsTo(queue, commands),
    {
        CommandRouting::CommandsTo(queue, commands)
    }

    /// Leaves the choice to an application-defined rule.
    pub fn custom(rule: usize) -> (routing: Self)
        ensures
            routing == CommandRouting::Custom(rule),
    {
        CommandRouting::Custom(rule)
    }

    /// Returns the queue that gets a request.
    pub fn route(&self, context: CommandContext<'_>, decisions: &Decisions) -> (queue: QueueId)
        ensures
            queue == self.routed(
                context.request@.command,
                context.queue,
                decisions.routes@,
            ),
    {
        match self {
            CommandRouting::PreserveRequested => context.queue,
            CommandRouting::CommandsTo(queue, commands) => if lists(
                commands,
                context.request.command,
            ) {
                *queue
            } else {
                context.queue
            },
            CommandRouting::Custom(rule) => if *rule < decisions.routes.len() {
                decisions.routes[*rule]
            } else {
                context.queue
            },
        }
    }
}

/// What a request declares of its own safety changes nothing about its
/// admission: two requests for one command are admitted alike by every policy
/// whose application-defined rules treat them alike.
pub proof fn lemma_declaration_does_not_admit(
    policy: CommandPolicy,
    request: RequestView,
    safety: Option<OperationSafety>,
    queue: QueueId,
    verdicts: Seq<bool>,
)
    ensures
        policy.admitted(request.command, queue, verdicts) == policy.admitted(
            (RequestView { retry_safety: safety, ..request }).command,
            queue,
            verdicts,
        ),
        CommandPolicy::ReadOnly.admitted(request.command, queue, verdicts) ==> registered_safety(
            request.command,
        ) == Some(OperationSafety::ReadOnly),
        CommandPolicy::RetrySafe.admitted(request.command, queue, verdicts) ==> registered_safety(
            request.command,
        ) is Some && registered_safety(request.command) != Some(OperationSafety::Action),
{
}

/// A command that the registry does not know is repeated on its own
/// declaration only.
pub proof fn lemma_unknown_command_is_an_action(request: RequestView)
    requires
        registered(request.command.0) is None,
        request.retry_safety is None,
    ensures
        effective_safety(request) == OperationSafety::Action,
{
}

} // verus!
