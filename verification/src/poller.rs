//! Tasks that run again and again, each at its own interval.
//!
//! Times are nanoseconds since some fixed moment, and intervals are nanoseconds.

use vstd::prelude::*;

verus! {

/// A task that is run again and again.
struct PollTask<H> {
    id: Vec<u8>,
    interval: u128,
    handler: H,
    wake_at: u128,
}

/// The mathematical value of a task.
pub struct PollTaskView<H> {
    pub id: Seq<u8>,
    pub interval: u128,
    pub handler: H,
    /// The time from which on the task is to be run.
    pub wake_at: int,
}

/// What the poller can be told.
pub enum PollerCommand<H> {
    Register { id: Vec<u8>, interval: u128, handler: H },
    Unregister { id: Vec<u8> },
}

/// Whether the task `i` has the id `id`.
pub open spec fn has_id_at<H>(tasks: Seq<PollTaskView<H>>, id: Seq<u8>, i: int) -> bool {
    0 <= i < tasks.len() && tasks[i].id == id
}

/// Whether a task has the id `id`.
pub open spec fn has_id<H>(tasks: Seq<PollTaskView<H>>, id: Seq<u8>) -> bool {
    exists|i: int| has_id_at(tasks, id, i)
}

/// Whether no two tasks have the same id.
pub open spec fn ids_distinct<H>(tasks: Seq<PollTaskView<H>>) -> bool {
    forall|i: int, j: int|
        0 <= i < j < tasks.len() ==> (#[trigger] tasks[i]).id != (#[trigger] tasks[j]).id
}

/// Whether a task is to be run at the time `now`.
pub open spec fn is_due<H>(task: PollTaskView<H>, now: int) -> bool {
    now >= task.wake_at
}

/// A task after the time `now`: if it was run it waits for its interval, counted from `now`.
pub open spec fn after_poll<H>(task: PollTaskView<H>, now: int) -> PollTaskView<H> {
    if is_due(task, now) {
        PollTaskView { wake_at: now + task.interval, ..task }
    } else {
        task
    }
}

/// The positions of the tasks that are to be run at the time `now`, in order.
pub open spec fn due_positions<H>(tasks: Seq<PollTaskView<H>>, now: int) -> Seq<int>
    decreases tasks.len(),
{
    if tasks.len() == 0 {
        Seq::empty()
    } else {
        let before = due_positions(tasks.drop_last(), now);
        if is_due(tasks.last(), now) {
            before.push(tasks.len() - 1)
        } else {
            before
        }
    }
}

/// Whether `after` is `before` with the task `task`, which takes the place of one with its id.
pub open spec fn is_registered<H>(
    before: Seq<PollTaskView<H>>,
    after: Seq<PollTaskView<H>>,
    task: PollTaskView<H>,
) -> bool {
    if has_id(before, task.id) {
        exists|i: int| #[trigger] has_id_at(before, task.id, i) && after == before.update(i, task)
    } else {
        after == before.push(task)
    }
}

/// Whether `after` is `before` without the task with the id `id`.
pub open spec fn is_unregistered<H>(
    before: Seq<PollTaskView<H>>,
    after: Seq<PollTaskView<H>>,
    id: Seq<u8>,
) -> bool {
    if has_id(before, id) {
        exists|i: int| #[trigger] has_id_at(before, id, i) && after == before.remove(i)
    } else {
        after == before
    }
}

/// Whether `command` leads from `before` to `after` at the time `now`.
pub open spec fn is_applied<H>(
    before: Seq<PollTaskView<H>>,
    after: Seq<PollTaskView<H>>,
    command: Option<PollerCommand<H>>,
    now: int,
) -> bool {
    match command {
        Some(PollerCommand::Register { id, interval, handler }) => is_registered(
            before,
            after,
            PollTaskView { id: id@, interval, handler, wake_at: now + interval },
        ),
        Some(PollerCommand::Unregister { id }) => is_unregistered(before, after, id@),
        None => after == before,
    }
}

/// Whether the first run of a task that `command` adds at the time `now` lies in the range of
/// times.
pub open spec fn is_in_time<H>(command: Option<PollerCommand<H>>, now: u128) -> bool {
    command matches Some(PollerCommand::Register { interval, .. }) ==> now + interval <= u128::MAX
}

/// Whether the byte strings are equal.
fn same_bytes(a: &Vec<u8>, b: &Vec<u8>) -> (same: bool)
    ensures
        same == (a@ == b@),
{
    if a.len() != b.len() {
        return false;
    }
    let mut i: usize = 0;
    while i < a.len()
        invariant
            i <= a.len(),
            a.len() == b.len(),
            forall|j: int| 0 <= j < i ==> a[j] == b[j],
        decreases a.len() - i,
    {
        if a[i] != b[i] {
            assert(a@[i as int] != b@[i as int]);
            return false;
        }
        i += 1;
    }
    assert(a@ =~= b@);
    true
}

/// The tasks of the poller. They are run in passes, see [`Poller::begin`].
pub struct Poller<H> {
    tasks: Vec<PollTask<H>>,
}

impl<H> Poller<H> {
    /// The tasks.
    pub closed spec fn tasks(self) -> Seq<PollTaskView<H>> {
        Seq::new(
            self.tasks.len() as nat,
            |i: int|
                PollTaskView {
                    id: self.tasks[i].id@,
                    interval: self.tasks[i].interval,
                    handler: self.tasks[i].handler,
                    wake_at: self.tasks[i].wake_at as int,
                },
        )
    }

    /// The invariant: a task is known by its id.
    pub open spec fn wf(self) -> bool {
        ids_distinct(self.tasks())
    }

    /// No tasks.
    pub fn new() -> (poller: Poller<H>)
        ensures
            poller.wf(),
            poller.tasks() == Seq::<PollTaskView<H>>::empty(),
    {
        let poller = Poller { tasks: Vec::new() };
        assert(poller.tasks() =~= Seq::empty());
        poller
    }

    /// The time from which on the first task is to be run; none if there is no task.
    pub fn next_wakeup(&self) -> (time: Option<u128>)
        ensures
            time is None <==> self.tasks().len() == 0,
            time matches Some(t) ==> {
                &&& forall|i: int|
                    0 <= i < self.tasks().len() ==> t <= (#[trigger] self.tasks()[i]).wake_at
                &&& exists|i: int|
                    0 <= i < self.tasks().len() && (#[trigger] self.tasks()[i]).wake_at == t
            },
    {
        if self.tasks.len() == 0 {
            return None;
        }
        let mut first: u128 = self.tasks[0].wake_at;
        let mut i: usize = 1;
        assert(self.tasks()[0].wake_at == first);
        while i < self.tasks.len()
            invariant
                1 <= i <= self.tasks.len(),
                self.tasks().len() == self.tasks.len(),
                forall|j: int| 0 <= j < i ==> first <= (#[trigger] self.tasks()[j]).wake_at,
                exists|j: int| 0 <= j < i && (#[trigger] self.tasks()[j]).wake_at == first,
            decreases self.tasks.len() - i,
        {
            assert(self.tasks()[i as int].wake_at == self.tasks[i as int].wake_at);
            if self.tasks[i].wake_at < first {
                first = self.tasks[i].wake_at;
            }
            i += 1;
        }
        Some(first)
    }

    /// How long to wait for a command at the time `now`; without end if there is no task.
    pub fn timeout(&self, now: u128) -> (timeout: Option<u128>)
        ensures
            timeout is None <==> self.tasks().len() == 0,
            timeout matches Some(t) ==> {
                &&& forall|i: int|
                    0 <= i < self.tasks().len() ==> t == 0 || now + t <= (
                    #[trigger] self.tasks()[i]).wake_at
                &&& exists|i: int|
                    0 <= i < self.tasks().len() && now + t >= (#[trigger] self.tasks()[i]).wake_at
            },
    {
        match self.next_wakeup() {
            Some(time) => if time > now {
                Some(time - now)
            } else {
                Some(0)
            },
            None => None,
        }
    }

    /// The positions of the tasks that are to be run at the time `now`. Each of them waits for
    /// its interval from now on.
    fn poll(&mut self, now: u128) -> (due: Vec<usize>)
        requires
            old(self).wf(),
            forall|i: int|
                0 <= i < old(self).tasks().len() && is_due(
                    #[trigger] old(self).tasks()[i],
                    now as int,
                ) ==> now + old(self).tasks()[i].interval <= u128::MAX,
        ensures
            final(self).wf(),
            final(self).tasks() == old(self).tasks().map_values(
                |task: PollTaskView<H>| after_poll(task, now as int),
            ),
            due@.map_values(|i: usize| i as int) == due_positions(old(self).tasks(), now as int),
    {
        let ghost before = self.tasks();
        let mut due: Vec<usize> = Vec::new();
        let mut i: usize = 0;
        assert(before.take(0) =~= Seq::empty());
        assert(due@.map_values(|i: usize| i as int) =~= Seq::empty());
        while i < self.tasks.len()
            invariant
                i <= self.tasks.len(),
                self.tasks.len() == before.len(),
                forall|j: int|
                    0 <= j < before.len() && is_due(#[trigger] before[j], now as int) ==> now
                        + before[j].interval <= u128::MAX,
                forall|j: int|
                    0 <= j < i ==> #[trigger] self.tasks()[j] == after_poll(before[j], now as int),
                forall|j: int| i <= j < before.len() ==> #[trigger] self.tasks()[j] == before[j],
                due@.map_values(|i: usize| i as int) == due_positions(
                    before.take(i as int),
                    now as int,
                ),
            decreases before.len() - i,
        {
            let ghost found = due@;
            let ghost reached = self.tasks();
            proof {
                let next = before.take(i + 1);
                assert(next.drop_last() =~= before.take(i as int));
                assert(next.last() == before[i as int]);
                assert(self.tasks()[i as int] == before[i as int]);
            }
            if now >= self.tasks[i].wake_at {
                assert(is_due(before[i as int], now as int));
                due.push(i);
                assert(due@.map_values(|i: usize| i as int) =~= found.map_values(
                    |i: usize| i as int,
                ).push(i as int));
                let wake_at: u128 = now + self.tasks[i].interval;
                let mut task = self.tasks.remove(i);
                task.wake_at = wake_at;
                self.tasks.insert(i, task);
                assert(self.tasks() =~= reached.update(
                    i as int,
                    after_poll(before[i as int], now as int),
                ));
            }
            i += 1;
        }
        assert(before.take(before.len() as int) =~= before);
        assert(self.tasks() =~= before.map_values(
            |task: PollTaskView<H>| after_poll(task, now as int),
        ));
        due
    }

    /// The handler of the task at position `i`.
    fn handler_mut(&mut self, i: usize) -> (handler: &mut H)
        requires
            i < old(self).tasks().len(),
        ensures
            *handler == old(self).tasks()[i as int].handler,
            final(self).tasks() == old(self).tasks().update(
                i as int,
                PollTaskView { handler: *final(handler), ..old(self).tasks()[i as int] },
            ),
    {
        &mut self.tasks[i].handler
    }

    /// The position of the task with the id `id`.
    fn position(&self, id: &Vec<u8>) -> (position: Option<usize>)
        ensures
            position is Some <==> has_id(self.tasks(), id@),
            position matches Some(i) ==> has_id_at(self.tasks(), id@, i as int),
    {
        let mut i: usize = 0;
        while i < self.tasks.len()
            invariant
                i <= self.tasks.len(),
                self.tasks().len() == self.tasks.len(),
                forall|j: int| 0 <= j < i ==> !#[trigger] has_id_at(self.tasks(), id@, j),
            decreases self.tasks.len() - i,
        {
            if same_bytes(&self.tasks[i].id, id) {
                assert(has_id_at(self.tasks(), id@, i as int));
                return Some(i);
            }
            i += 1;
        }
        None
    }

    /// Adds a task, which is run an interval after `now` for the first time. It takes the place
    /// of a task with the same id.
    pub fn register(&mut self, id: Vec<u8>, interval: u128, handler: H, now: u128)
        requires
            old(self).wf(),
            now + interval <= u128::MAX,
        ensures
            final(self).wf(),
            is_registered(
                old(self).tasks(),
                final(self).tasks(),
                (PollTaskView { id: id@, interval, handler, wake_at: now + interval }),
            ),
    {
        let ghost before = self.tasks();
        let ghost view = PollTaskView { id: id@, interval, handler, wake_at: now + interval };
        let position = self.position(&id);
        let task = PollTask { id, interval, handler, wake_at: now + interval };
        match position {
            Some(i) => {
                let _ = self.tasks.remove(i);
                self.tasks.insert(i, task);
                assert(self.tasks() =~= before.update(i as int, view));
                assert(has_id_at(before, view.id, i as int));
            },
            None => {
                assert forall|j: int| 0 <= j < before.len() implies (#[trigger] before[j]).id
                    != view.id by {
                    assert(!has_id_at(before, view.id, j));
                }
                self.tasks.push(task);
                assert(self.tasks() =~= before.push(view));
            },
        }
    }

    /// Takes out the task with the id `id`, if there is one.
    pub fn unregister(&mut self, id: &Vec<u8>)
        requires
            old(self).wf(),
        ensures
            final(self).wf(),
            is_unregistered(old(self).tasks(), final(self).tasks(), id@),
    {
        let ghost before = self.tasks();
        match self.position(id) {
            Some(i) => {
                let _ = self.tasks.remove(i);
                assert(self.tasks() =~= before.remove(i as int));
                assert(has_id_at(before, id@, i as int));
            },
            None => {},
        }
    }

    /// Begins a pass at the time `now`, after the wait for a command was over: the tasks at the
    /// positions that are returned are to be run, and the command, if one came, acts at the end of
    /// the pass.
    pub fn begin(self, now: u128, command: Option<PollerCommand<H>>) -> (begun: (
        PollerPass<H>,
        Vec<usize>,
    ))
        requires
            self.wf(),
            forall|i: int|
                0 <= i < self.tasks().len() && is_due(#[trigger] self.tasks()[i], now as int)
                    ==> now + self.tasks()[i].interval <= u128::MAX,
            is_in_time(command, now),
        ensures
            begun.0.wf(),
            begun.0.now() == now,
            begun.0.command() == command,
            begun.0.tasks() == self.tasks().map_values(
                |task: PollTaskView<H>| after_poll(task, now as int),
            ),
            begun.1@.map_values(|i: usize| i as int) == due_positions(self.tasks(), now as int),
    {
        let mut poller = self;
        let due = poller.poll(now);
        (PollerPass { poller, now, command }, due)
    }
}

/// A pass of the poller: the tasks whose time has come are run, and then the command acts.
pub struct PollerPass<H> {
    poller: Poller<H>,
    now: u128,
    command: Option<PollerCommand<H>>,
}

impl<H> PollerPass<H> {
    /// The tasks.
    pub closed spec fn tasks(self) -> Seq<PollTaskView<H>> {
        self.poller.tasks()
    }

    /// The time of the pass.
    pub closed spec fn now(self) -> u128 {
        self.now
    }

    /// The command that acts at the end of the pass.
    pub closed spec fn command(self) -> Option<PollerCommand<H>> {
        self.command
    }

    /// The invariant.
    pub open spec fn wf(self) -> bool {
        ids_distinct(self.tasks()) && is_in_time(self.command(), self.now())
    }

    /// The handler of the task at position `i`, to be run.
    pub fn handler_mut(&mut self, i: usize) -> (handler: &mut H)
        requires
            i < old(self).tasks().len(),
        ensures
            *handler == old(self).tasks()[i as int].handler,
            final(self).tasks() == old(self).tasks().update(
                i as int,
                PollTaskView { handler: *final(handler), ..old(self).tasks()[i as int] },
            ),
            final(self).now() == old(self).now(),
            final(self).command() == old(self).command(),
            old(self).wf() ==> final(self).wf(),
    {
        self.poller.handler_mut(i)
    }

    /// Ends the pass: the command acts.
    pub fn end(self) -> (poller: Poller<H>)
        requires
            self.wf(),
        ensures
            poller.wf(),
            is_applied(self.tasks(), poller.tasks(), self.command(), self.now() as int),
    {
        let mut poller = self.poller;
        match self.command {
            Some(PollerCommand::Register { id, interval, handler }) => {
                poller.register(id, interval, handler, self.now);
            },
            Some(PollerCommand::Unregister { id }) => {
                poller.unregister(&id);
            },
            None => {},
        }
        poller
    }
}

/// Exactly the tasks whose time has come are run, none of them twice, and in their order.
pub proof fn lemma_due_positions<H>(tasks: Seq<PollTaskView<H>>, now: int, i: int)
    requires
        0 <= i < tasks.len(),
    ensures
        due_positions(tasks, now).contains(i) <==> now >= tasks[i].wake_at,
        due_positions(tasks, now).no_duplicates(),
        forall|j: int, k: int|
            0 <= j < k < due_positions(tasks, now).len() ==> #[trigger] due_positions(tasks, now)[j]
                < #[trigger] due_positions(tasks, now)[k],
        forall|j: int|
            0 <= j < due_positions(tasks, now).len() ==> 0 <= #[trigger] due_positions(
                tasks,
                now,
            )[j] < tasks.len(),
{
    lemma_due_bounds(tasks, now);
    lemma_due_contains(tasks, now, i);
}

proof fn lemma_due_bounds<H>(tasks: Seq<PollTaskView<H>>, now: int)
    ensures
        forall|j: int|
            0 <= j < due_positions(tasks, now).len() ==> 0 <= #[trigger] due_positions(
                tasks,
                now,
            )[j] < tasks.len(),
        due_positions(tasks, now).no_duplicates(),
        forall|j: int, k: int|
            0 <= j < k < due_positions(tasks, now).len() ==> #[trigger] due_positions(tasks, now)[j]
                < #[trigger] due_positions(tasks, now)[k],
    decreases tasks.len(),
{
    if tasks.len() > 0 {
        lemma_due_bounds(tasks.drop_last(), now);
    }
}

proof fn lemma_due_contains<H>(tasks: Seq<PollTaskView<H>>, now: int, i: int)
    requires
        0 <= i < tasks.len(),
    ensures
        due_positions(tasks, now).contains(i) <==> is_due(tasks[i], now),
    decreases tasks.len(),
{
    let rest = tasks.drop_last();
    let before = due_positions(rest, now);
    let all = due_positions(tasks, now);
    lemma_due_bounds(rest, now);
    if i < rest.len() {
        lemma_due_contains(rest, now, i);
        if before.contains(i) {
            let j = choose|j: int| 0 <= j < before.len() && before[j] == i;
            assert(all[j] == i);
        }
        if all.contains(i) {
            let j = choose|j: int| 0 <= j < all.len() && all[j] == i;
            assert(before[j] == i);
        }
    } else {
        if is_due(tasks[i], now) {
            assert(all[all.len() - 1] == i);
        } else if all.contains(i) {
            let j = choose|j: int| 0 <= j < all.len() && all[j] == i;
            assert(before[j] == i);
        }
    }
}

/// A task that was run is not run again before its interval is over, counted from the run, and then
/// is; one that was not waits as long as it would have. Nothing else of either changes.
pub proof fn lemma_interval_between_runs<H>(task: PollTaskView<H>, now: int, later: int)
    ensures
        is_due(task, later) <==> later >= task.wake_at,
        now >= task.wake_at ==> (is_due(after_poll(task, now), later) <==> later >= now
            + task.interval),
        now < task.wake_at ==> after_poll(task, now) == task,
        after_poll(task, now).id == task.id,
        after_poll(task, now).interval == task.interval,
        after_poll(task, now).handler == task.handler,
        now >= task.wake_at ==> after_poll(task, now).wake_at == now + task.interval,
{
}

/// A task that has been taken out is not there, and the others stay as they are.
pub proof fn lemma_unregistered<H>(
    before: Seq<PollTaskView<H>>,
    after: Seq<PollTaskView<H>>,
    id: Seq<u8>,
    other: PollTaskView<H>,
)
    requires
        ids_distinct(before),
        is_unregistered(before, after, id),
        other.id != id,
    ensures
        !has_id(after, id),
        before.contains(other) <==> after.contains(other),
{
    if has_id(before, id) {
        let i = choose|i: int| #[trigger] has_id_at(before, id, i) && after == before.remove(i);
        if has_id(after, id) {
            let j = choose|j: int| has_id_at(after, id, j);
            let k = if j < i { j } else { j + 1 };
            assert(after[j] == before[k]);
            assert(before[i].id == before[k].id);
        }
        if before.contains(other) {
            let j = choose|j: int| 0 <= j < before.len() && before[j] == other;
            let k = if j < i { j } else { j - 1 };
            assert(after[k] == other);
        }
        if after.contains(other) {
            let j = choose|j: int| 0 <= j < after.len() && after[j] == other;
            let k = if j < i { j } else { j + 1 };
            assert(before[k] == other);
        }
    }
}

/// A task that has been added is there and is the only one with its id, and the others stay as
/// they are.
pub proof fn lemma_registered<H>(
    before: Seq<PollTaskView<H>>,
    after: Seq<PollTaskView<H>>,
    task: PollTaskView<H>,
    other: PollTaskView<H>,
)
    requires
        ids_distinct(before),
        is_registered(before, after, task),
        other.id != task.id,
    ensures
        after.contains(task),
        ids_distinct(after),
        before.contains(other) <==> after.contains(other),
{
    if has_id(before, task.id) {
        let i = choose|i: int| #[trigger]
            has_id_at(before, task.id, i) && after == before.update(i, task);
        assert(after[i] == task);
        if before.contains(other) {
            let j = choose|j: int| 0 <= j < before.len() && before[j] == other;
            assert(after[j] == other);
        }
        if after.contains(other) {
            let j = choose|j: int| 0 <= j < after.len() && after[j] == other;
            assert(before[j] == other);
        }
    } else {
        assert(after[before.len() as int] == task);
        assert forall|j: int| 0 <= j < before.len() implies (#[trigger] before[j]).id
            != task.id by {
            assert(!has_id_at(before, task.id, j));
        }
        if before.contains(other) {
            let j = choose|j: int| 0 <= j < before.len() && before[j] == other;
            assert(after[j] == other);
        }
        if after.contains(other) {
            let j = choose|j: int| 0 <= j < after.len() && after[j] == other;
            assert(before[j] == other);
        }
    }
}

/// A task that a command takes out or replaces is run before, if its time has come, and is not
/// there after.
pub proof fn lemma_run_before_command<H>(
    tasks: Seq<PollTaskView<H>>,
    now: int,
    command: PollerCommand<H>,
    after: Seq<PollTaskView<H>>,
    i: int,
)
    requires
        ids_distinct(tasks),
        0 <= i < tasks.len(),
        is_due(tasks[i], now),
        is_applied(
            tasks.map_values(|task: PollTaskView<H>| after_poll(task, now)),
            after,
            Some(command),
            now,
        ),
        match command {
            PollerCommand::Register { id, .. } => id@ == tasks[i].id,
            PollerCommand::Unregister { id } => id@ == tasks[i].id,
        },
    ensures
        due_positions(tasks, now).contains(i),
        command is Unregister ==> !has_id(after, tasks[i].id),
        command matches PollerCommand::Register { id, interval, handler } ==> forall|j: int|
            #[trigger] has_id_at(after, tasks[i].id, j) ==> after[j] == (PollTaskView {
                id: id@,
                interval,
                handler,
                wake_at: now + interval,
            }),
{
    let polled = tasks.map_values(|task: PollTaskView<H>| after_poll(task, now));
    lemma_due_positions(tasks, now, i);
    assert(ids_distinct(polled));
    let other = PollTaskView { id: tasks[i].id.push(0), ..tasks[i] };
    assert(other.id.len() != tasks[i].id.len());
    match command {
        PollerCommand::Register { id, interval, handler } => {
            let task = PollTaskView { id: id@, interval, handler, wake_at: now + interval };
            lemma_registered(polled, after, task, other);
            let k = choose|k: int| 0 <= k < after.len() && after[k] == task;
            assert forall|j: int| #[trigger] has_id_at(after, tasks[i].id, j) implies after[j]
                == task by {
                if j < k {
                    assert(after[j].id != after[k].id);
                } else if k < j {
                    assert(after[k].id != after[j].id);
                }
            }
        },
        PollerCommand::Unregister { id } => {
            lemma_unregistered(polled, after, id@, other);
        },
    }
}

/// At the end of a pass the task that the command adds is there, to be run an interval after the
/// pass; the task that it takes out is not; and all tasks with other ids are as they were. Without
/// a command all tasks are.
pub proof fn lemma_command_acts<H>(
    before: Seq<PollTaskView<H>>,
    after: Seq<PollTaskView<H>>,
    command: Option<PollerCommand<H>>,
    now: int,
    other: PollTaskView<H>,
)
    requires
        forall|i: int, j: int|
            0 <= i < j < before.len() ==> (#[trigger] before[i]).id != (#[trigger] before[j]).id,
        is_applied(before, after, command, now),
    ensures
        command is None ==> after == before,
        command matches Some(PollerCommand::Register { id, interval, handler }) ==> {
            &&& exists|i: int|
                0 <= i < after.len() && #[trigger] after[i] == (PollTaskView {
                    id: id@,
                    interval,
                    handler,
                    wake_at: now + interval,
                })
            &&& forall|i: int, j: int|
                0 <= i < j < after.len() ==> (#[trigger] after[i]).id != (#[trigger] after[j]).id
            &&& other.id != id@ ==> (before.contains(other) <==> after.contains(other))
        },
        command matches Some(PollerCommand::Unregister { id }) ==> {
            &&& forall|i: int| 0 <= i < after.len() ==> (#[trigger] after[i]).id != id@
            &&& other.id != id@ ==> (before.contains(other) <==> after.contains(other))
        },
{
    assert(ids_distinct(before));
    match command {
        Some(PollerCommand::Register { id, interval, handler }) => {
            let task = PollTaskView { id: id@, interval, handler, wake_at: now + interval };
            let away = PollTaskView { id: id@.push(0), ..task };
            assert(away.id.len() != id@.len());
            lemma_registered(before, after, task, away);
            let k = choose|k: int| 0 <= k < after.len() && after[k] == task;
            assert(after[k] == task);
            if other.id != id@ {
                lemma_registered(before, after, task, other);
            }
        },
        Some(PollerCommand::Unregister { id }) => {
            let away = PollTaskView { id: id@.push(0), ..other };
            assert(away.id.len() != id@.len());
            lemma_unregistered(before, after, id@, away);
            assert forall|i: int| 0 <= i < after.len() implies (#[trigger] after[i]).id != id@ by {
                if after[i].id == id@ {
                    assert(has_id_at(after, id@, i));
                }
            }
            if other.id != id@ {
                lemma_unregistered(before, after, id@, other);
            }
        },
        None => {},
    }
}

} // verus!
