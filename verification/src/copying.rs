//! Copying a folder with all that is in it. The walk keeps the tasks that are
//! left and says what is to be done next; what came of it decides which tasks
//! are added. Folders are merged, and a file that is there is never replaced.
use vstd::prelude::*;

verus! {

/// A task of the walk, with the path to copy from and the path to copy to.
pub enum CopyTask<P> {
    /// Copies a folder.
    Folder { from: P, to: P },
    /// Copies an entry of a folder, of which it is not known yet what it is.
    Entry { from: P, to: P },
    /// Copies a file.
    File { from: P, to: P },
    /// Gives up for the given reason.
    Fail { reason: String },
}

/// What is to be done next.
pub enum CopyAction<P> {
    /// Creates the target folder and lists the entries of the source.
    Open { from: P, to: P },
    /// Finds out whether the source is a folder and whether the target is there.
    Inspect { from: P, to: P },
    /// Copies a file.
    Copy { from: P, to: P },
    /// Nothing: all is copied.
    Done,
    /// Nothing: the walk failed for the given reason.
    Failed { reason: String },
}

/// What came of opening a folder: the source is missing, something failed, or the
/// entries, each with its source and target, or the reason why it cannot be read.
pub enum Opened<P> {
    Missing,
    Failed(String),
    Entries(Vec<Result<(P, P), String>>),
}

/// The task that an entry of a folder leads to.
pub open spec fn entry_task<P>(entry: Result<(P, P), String>) -> CopyTask<P> {
    match entry {
        Ok((from, to)) => CopyTask::Entry { from, to },
        Err(reason) => CopyTask::Fail { reason },
    }
}

/// What is to be done for the first of the tasks that are left.
pub open spec fn action_for<P>(tasks: Seq<CopyTask<P>>) -> CopyAction<P> {
    if tasks.len() == 0 {
        CopyAction::Done
    } else {
        match tasks[0] {
            CopyTask::Folder { from, to } => CopyAction::Open { from, to },
            CopyTask::Entry { from, to } => CopyAction::Inspect { from, to },
            CopyTask::File { from, to } => CopyAction::Copy { from, to },
            CopyTask::Fail { reason } => CopyAction::Failed { reason },
        }
    }
}

/// The tasks that are left when the first of them is taken: none after a failure.
pub open spec fn tasks_after_taking<P>(tasks: Seq<CopyTask<P>>) -> Seq<CopyTask<P>> {
    if tasks.len() == 0 || tasks[0] is Fail {
        Seq::empty()
    } else {
        tasks.drop_first()
    }
}

/// The tasks that are left once the entries of a folder were listed.
pub open spec fn tasks_after_listing<P>(
    tasks: Seq<CopyTask<P>>,
    entries: Seq<Result<(P, P), String>>,
) -> Seq<CopyTask<P>> {
    entries.map_values(|entry: Result<(P, P), String>| entry_task(entry)) + tasks
}

/// The tasks that are left once a folder was opened.
pub open spec fn tasks_after_opening<P>(tasks: Seq<CopyTask<P>>, opened: Opened<P>) -> Seq<CopyTask<P>> {
    match opened {
        Opened::Missing => tasks,
        Opened::Failed(reason) => seq![CopyTask::Fail { reason }],
        Opened::Entries(entries) => tasks_after_listing(tasks, entries@),
    }
}

/// The tasks that are left once an entry was inspected.
pub open spec fn tasks_after_inspection<P>(
    tasks: Seq<CopyTask<P>>,
    from: P,
    to: P,
    is_folder: bool,
    target_exists: bool,
) -> Seq<CopyTask<P>> {
    if is_folder {
        seq![CopyTask::Folder { from, to }] + tasks
    } else if !target_exists {
        seq![CopyTask::File { from, to }] + tasks
    } else {
        tasks
    }
}

/// The tasks that are left once a file was copied or could not be.
pub open spec fn tasks_after_copying<P>(tasks: Seq<CopyTask<P>>, copied: Result<(), String>) -> Seq<CopyTask<P>> {
    match copied {
        Ok(_) => tasks,
        Err(reason) => seq![CopyTask::Fail { reason }],
    }
}

/// A walk through a folder that is copied.
pub struct CopyWalk<P> {
    /// The tasks that are left, the next one last.
    stack: Vec<CopyTask<P>>,
}

impl<P> View for CopyWalk<P> {
    type V = Seq<CopyTask<P>>;

    /// The tasks that are left, the next one first.
    closed spec fn view(&self) -> Seq<CopyTask<P>> {
        self.stack@.reverse()
    }
}

impl<P> CopyWalk<P> {
    /// The walk that copies the folder `from` to the folder `to`.
    pub fn new(from: P, to: P) -> (res: CopyWalk<P>)
        ensures
            res@ == seq![CopyTask::Folder { from, to }],
    {
        let stack = vec![CopyTask::Folder { from, to }];
        assert(stack@.reverse() == seq![CopyTask::Folder { from, to }]);
        CopyWalk { stack }
    }

    /// Takes the next task and says what is to be done for it. A failure ends the
    /// walk.
    pub fn next(&mut self) -> (res: CopyAction<P>)
        ensures
            res == action_for(old(self)@),
            final(self)@ == tasks_after_taking(old(self)@),
    {
        let ghost before = self.stack@;
        match self.stack.pop() {
            None => {
                assert(self.stack@.reverse() == before.reverse());
                CopyAction::Done
            },
            Some(task) => {
                assert(before.reverse()[0] == task);
                assert(self.stack@.reverse() == before.reverse().drop_first());
                match task {
                    CopyTask::Folder { from, to } => CopyAction::Open { from, to },
                    CopyTask::Entry { from, to } => CopyAction::Inspect { from, to },
                    CopyTask::File { from, to } => CopyAction::Copy { from, to },
                    CopyTask::Fail { reason } => {
                        self.stack = Vec::new();
                        assert(self.stack@.reverse() == Seq::<CopyTask<P>>::empty());
                        CopyAction::Failed { reason }
                    },
                }
            },
        }
    }

    /// Gives up for a reason: nothing but that is left.
    fn fail(&mut self, reason: String)
        ensures
            final(self)@ == seq![CopyTask::<P>::Fail { reason }],
    {
        self.stack = vec![CopyTask::Fail { reason }];
        assert(self.stack@.reverse() == seq![CopyTask::<P>::Fail { reason }]);
    }

    /// Takes note of what came of opening a folder.
    pub fn opened(&mut self, opened: Opened<P>)
        ensures
            final(self)@ == tasks_after_opening(old(self)@, opened),
    {
        match opened {
            Opened::Missing => {},
            Opened::Failed(reason) => self.fail(reason),
            Opened::Entries(entries) => {
                let ghost all = entries@;
                let ghost tasks = all.map_values(|entry: Result<(P, P), String>| entry_task(entry));
                let ghost before = self@;
                let mut entries = entries;
                assert(all.skip(all.len() as int) == Seq::<Result<(P, P), String>>::empty());
                assert(tasks.skip(all.len() as int) + before == before);
                while entries.len() > 0
                    invariant
                        entries@.len() <= all.len(),
                        entries@ == all.take(entries@.len() as int),
                        tasks == all.map_values(|entry: Result<(P, P), String>| entry_task(entry)),
                        self@ == tasks.skip(entries@.len() as int) + before,
                    decreases entries@.len(),
                {
                    let ghost left = entries@.len() - 1;
                    let ghost stack = self.stack@;
                    if let Some(entry) = entries.pop() {
                        assert(entry == all[left]);
                        let task = match entry {
                            Ok((from, to)) => CopyTask::Entry { from, to },
                            Err(reason) => CopyTask::Fail { reason },
                        };
                        assert(task == tasks[left]);
                        self.stack.push(task);
                        assert(self.stack@.reverse() == seq![task] + stack.reverse());
                        assert(tasks.skip(left) == seq![tasks[left]] + tasks.skip(left + 1));
                    }
                }
                assert(tasks.skip(0) == tasks);
            },
        }
    }

    /// Takes note of what an entry is: a folder is copied entry by entry, and a
    /// file if there is none at its target.
    pub fn inspected(&mut self, from: P, to: P, is_folder: bool, target_exists: bool)
        ensures
            final(self)@ == tasks_after_inspection(old(self)@, from, to, is_folder, target_exists),
    {
        let ghost before = self.stack@;
        if is_folder {
            self.stack.push(CopyTask::Folder { from, to });
            assert(self.stack@.reverse() == seq![CopyTask::Folder { from, to }] + before.reverse());
        } else if !target_exists {
            self.stack.push(CopyTask::File { from, to });
            assert(self.stack@.reverse() == seq![CopyTask::File { from, to }] + before.reverse());
        }
    }

    /// Takes note of whether a file was copied.
    pub fn copied(&mut self, copied: Result<(), String>)
        ensures
            final(self)@ == tasks_after_copying(old(self)@, copied),
    {
        if let Err(reason) = copied {
            self.fail(reason);
        }
    }
}

/// A file is copied only to where no file is: inspecting an entry adds the task of
/// copying a file exactly if the entry is no folder and its target is missing.
pub proof fn no_file_is_replaced<P>(tasks: Seq<CopyTask<P>>, from: P, to: P, is_folder: bool, target_exists: bool)
    ensures
        ({
            let after = tasks_after_inspection(tasks, from, to, is_folder, target_exists);
            &&& after.len() > tasks.len() && after[0] is File <==> !is_folder && !target_exists
            &&& after.len() > tasks.len() && after[0] is File ==> after[0] == (CopyTask::File { from, to })
            &&& after.skip(after.len() - tasks.len()) == tasks
        }),
{
    let after = tasks_after_inspection(tasks, from, to, is_folder, target_exists);
    assert(after.skip(after.len() - tasks.len()) == tasks);
}

/// Once something failed, the next action gives the reason, and nothing is left
/// after it: no file is copied any more.
pub proof fn failure_ends_the_walk<P>(tasks: Seq<CopyTask<P>>, reason: String)
    ensures
        action_for(tasks_after_opening(tasks, Opened::Failed(reason))) == (CopyAction::<P>::Failed { reason }),
        action_for(tasks_after_copying(tasks, Err(reason))) == (CopyAction::<P>::Failed { reason }),
        tasks.len() > 0 && tasks[0] == (CopyTask::<P>::Fail { reason }) ==> {
            &&& action_for(tasks) == (CopyAction::<P>::Failed { reason })
            &&& tasks_after_taking(tasks) == Seq::<CopyTask<P>>::empty()
            &&& action_for(tasks_after_taking(tasks)) == CopyAction::<P>::Done
        },
{
}

/// What a disk holds, as far as a walk asks: the entries of a folder with their
/// targets, given where it is copied from and to, or `None` where it is missing;
/// which sources are folders; and which targets are there before they are copied
/// to.
#[verifier::reject_recursive_types(P)]
pub struct Disk<P> {
    pub entries: spec_fn(P, P) -> Option<Seq<(P, P)>>,
    pub is_folder: spec_fn(P) -> bool,
    pub taken: spec_fn(P) -> bool,
}

/// The tasks that are left when the next one is done on a disk where nothing
/// fails.
pub open spec fn tasks_after_step<P>(disk: Disk<P>, tasks: Seq<CopyTask<P>>) -> Seq<CopyTask<P>> {
    let rest = tasks_after_taking(tasks);
    match action_for(tasks) {
        CopyAction::Open { from, to } => match (disk.entries)(from, to) {
            Some(entries) => tasks_after_listing(
                rest,
                entries.map_values(|entry: (P, P)| Ok::<(P, P), String>(entry)),
            ),
            None => rest,
        },
        CopyAction::Inspect { from, to } => tasks_after_inspection(
            rest,
            from,
            to,
            (disk.is_folder)(from),
            (disk.taken)(to),
        ),
        CopyAction::Copy { from, to } => tasks_after_copying(rest, Ok(())),
        CopyAction::Done => rest,
        CopyAction::Failed { reason } => rest,
    }
}

/// The files that are copied, with their targets, in the first steps of a walk.
pub open spec fn copied_in<P>(disk: Disk<P>, tasks: Seq<CopyTask<P>>, steps: nat) -> Seq<(P, P)>
    decreases steps,
{
    if steps == 0 {
        Seq::empty()
    } else {
        let later = copied_in(disk, tasks_after_step(disk, tasks), (steps - 1) as nat);
        match action_for(tasks) {
            CopyAction::Copy { from, to } => seq![(from, to)] + later,
            _ => later,
        }
    }
}

/// The tasks that are left after a number of steps.
pub open spec fn tasks_after<P>(disk: Disk<P>, tasks: Seq<CopyTask<P>>, steps: nat) -> Seq<CopyTask<P>>
    decreases steps,
{
    if steps == 0 {
        tasks
    } else {
        tasks_after(disk, tasks_after_step(disk, tasks), (steps - 1) as nat)
    }
}

/// The files that copying a folder copies, with their targets: of its entries in
/// turn those of each folder, and each file whose target is not taken. Folders are
/// followed `depth` levels deep.
pub open spec fn files_of_folder<P>(disk: Disk<P>, from: P, to: P, depth: nat) -> Seq<(P, P)>
    decreases depth, 0nat,
{
    if depth == 0 {
        Seq::empty()
    } else {
        match (disk.entries)(from, to) {
            Some(entries) => files_of_entries(disk, entries, (depth - 1) as nat),
            None => Seq::empty(),
        }
    }
}

/// The files that copying some entries copies, with their targets.
pub open spec fn files_of_entries<P>(disk: Disk<P>, entries: Seq<(P, P)>, depth: nat) -> Seq<(P, P)>
    decreases depth, entries.len() + 1,
{
    if entries.len() == 0 {
        Seq::empty()
    } else {
        let (from, to) = entries[0];
        let first = if (disk.is_folder)(from) {
            files_of_folder(disk, from, to, depth)
        } else if !(disk.taken)(to) {
            seq![(from, to)]
        } else {
            Seq::empty()
        };
        first + files_of_entries(disk, entries.drop_first(), depth)
    }
}

/// Whether a folder has at most `depth` levels, itself included.
pub open spec fn folder_fits<P>(disk: Disk<P>, from: P, to: P, depth: nat) -> bool
    decreases depth, 0nat,
{
    depth > 0 && match (disk.entries)(from, to) {
        Some(entries) => entries_fit(disk, entries, (depth - 1) as nat),
        None => true,
    }
}

/// Whether the folders among some entries have at most `depth` levels.
pub open spec fn entries_fit<P>(disk: Disk<P>, entries: Seq<(P, P)>, depth: nat) -> bool
    decreases depth, entries.len() + 1,
{
    entries.len() == 0 || {
        &&& (disk.is_folder)(entries[0].0) ==> folder_fits(disk, entries[0].0, entries[0].1, depth)
        &&& entries_fit(disk, entries.drop_first(), depth)
    }
}

/// The steps that copying a folder takes.
pub open spec fn steps_for_folder<P>(disk: Disk<P>, from: P, to: P, depth: nat) -> nat
    decreases depth, 0nat,
{
    if depth == 0 {
        0
    } else {
        match (disk.entries)(from, to) {
            Some(entries) => 1 + steps_for_entries(disk, entries, (depth - 1) as nat),
            None => 1,
        }
    }
}

/// The steps that copying some entries takes.
pub open spec fn steps_for_entries<P>(disk: Disk<P>, entries: Seq<(P, P)>, depth: nat) -> nat
    decreases depth, entries.len() + 1,
{
    if entries.len() == 0 {
        0
    } else {
        let (from, to) = entries[0];
        let first = if (disk.is_folder)(from) {
            1 + steps_for_folder(disk, from, to, depth)
        } else if !(disk.taken)(to) {
            2
        } else {
            1
        };
        first + steps_for_entries(disk, entries.drop_first(), depth)
    }
}

/// The tasks that entries lead to.
spec fn entry_tasks<P>(entries: Seq<(P, P)>) -> Seq<CopyTask<P>> {
    entries.map_values(|entry: (P, P)| CopyTask::Entry { from: entry.0, to: entry.1 })
}

proof fn lemma_folder_is_copied<P>(disk: Disk<P>, from: P, to: P, depth: nat, rest: Seq<CopyTask<P>>, more: nat)
    requires
        folder_fits(disk, from, to, depth),
    ensures
        copied_in(
            disk,
            seq![CopyTask::Folder { from, to }] + rest,
            steps_for_folder(disk, from, to, depth) + more,
        ) == files_of_folder(disk, from, to, depth) + copied_in(disk, rest, more),
        tasks_after(
            disk,
            seq![CopyTask::Folder { from, to }] + rest,
            steps_for_folder(disk, from, to, depth) + more,
        ) == tasks_after(disk, rest, more),
    decreases depth, 0nat,
{
    let tasks = seq![CopyTask::Folder { from, to }] + rest;
    assert(tasks_after_taking(tasks) == rest);
    match (disk.entries)(from, to) {
        Some(entries) => {
            let listed = entries.map_values(|entry: (P, P)| Ok::<(P, P), String>(entry));
            assert(listed.map_values(|entry: Result<(P, P), String>| entry_task(entry)) == entry_tasks(entries));
            assert(tasks_after_step(disk, tasks) == entry_tasks(entries) + rest);
            lemma_entries_are_copied(disk, entries, (depth - 1) as nat, rest, more);
        },
        None => {
            assert(tasks_after_step(disk, tasks) == rest);
            assert(files_of_folder(disk, from, to, depth) + copied_in(disk, rest, more) == copied_in(
                disk,
                rest,
                more,
            ));
        },
    }
}

proof fn lemma_entries_are_copied<P>(
    disk: Disk<P>,
    entries: Seq<(P, P)>,
    depth: nat,
    rest: Seq<CopyTask<P>>,
    more: nat,
)
    requires
        entries_fit(disk, entries, depth),
    ensures
        copied_in(disk, entry_tasks(entries) + rest, steps_for_entries(disk, entries, depth) + more)
            == files_of_entries(disk, entries, depth) + copied_in(disk, rest, more),
        tasks_after(disk, entry_tasks(entries) + rest, steps_for_entries(disk, entries, depth) + more)
            == tasks_after(disk, rest, more),
    decreases depth, entries.len() + 1,
{
    let tasks = entry_tasks(entries) + rest;
    if entries.len() == 0 {
        assert(tasks == rest);
        assert(files_of_entries(disk, entries, depth) + copied_in(disk, rest, more) == copied_in(disk, rest, more));
    } else {
        let (from, to) = entries[0];
        let others = entries.drop_first();
        let after = entry_tasks(others) + rest;
        let steps = steps_for_entries(disk, others, depth) + more;
        assert(tasks[0] == (CopyTask::Entry { from, to }));
        assert(tasks_after_taking(tasks) == after);
        lemma_entries_are_copied(disk, others, depth, rest, more);
        let files = files_of_entries(disk, others, depth) + copied_in(disk, rest, more);
        if (disk.is_folder)(from) {
            lemma_folder_is_copied(disk, from, to, depth, after, steps);
            assert(files_of_entries(disk, entries, depth) + copied_in(disk, rest, more) == files_of_folder(
                disk,
                from,
                to,
                depth,
            ) + files);
        } else if !(disk.taken)(to) {
            let copying = seq![CopyTask::File { from, to }] + after;
            assert(tasks_after_step(disk, tasks) == copying);
            assert(tasks_after_taking(copying) == after);
            assert(tasks_after_step(disk, copying) == after);
            assert(copied_in(disk, copying, steps + 1) == seq![(from, to)] + copied_in(disk, after, steps));
            assert(copied_in(disk, tasks, steps + 2) == copied_in(disk, copying, steps + 1));
            assert(tasks_after(disk, copying, steps + 1) == tasks_after(disk, after, steps));
            assert(tasks_after(disk, tasks, steps + 2) == tasks_after(disk, copying, steps + 1));
            assert(files_of_entries(disk, entries, depth) + copied_in(disk, rest, more) == seq![(from, to)] + files);
        } else {
            assert(tasks_after_step(disk, tasks) == after);
            assert(files_of_entries(disk, entries, depth) + copied_in(disk, rest, more) == files);
        }
    }
}

/// Where nothing fails, the walk through a folder of finite depth comes to its
/// end, and has then copied exactly the files of the folder and of the folders in
/// it whose targets were not taken, in the order in which they are listed.
pub proof fn walk_copies_the_folder<P>(disk: Disk<P>, from: P, to: P, depth: nat)
    requires
        folder_fits(disk, from, to, depth),
    ensures
        ({
            let start = seq![CopyTask::Folder { from, to }];
            let steps = steps_for_folder(disk, from, to, depth);
            &&& copied_in(disk, start, steps) == files_of_folder(disk, from, to, depth)
            &&& action_for(tasks_after(disk, start, steps)) == CopyAction::<P>::Done
        }),
{
    let start = seq![CopyTask::Folder { from, to }];
    let none = Seq::<CopyTask<P>>::empty();
    lemma_folder_is_copied(disk, from, to, depth, none, 0);
    assert(start + none == start);
    assert(files_of_folder(disk, from, to, depth) + Seq::<(P, P)>::empty() == files_of_folder(disk, from, to, depth));
}

/// Whether every file that is about to be copied has a target that is not taken.
pub open spec fn targets_are_free<P>(disk: Disk<P>, tasks: Seq<CopyTask<P>>) -> bool {
    forall|i: int| 0 <= i < tasks.len() ==> (#[trigger] tasks[i] matches CopyTask::File { to, .. } ==> !(disk.taken)(to))
}

proof fn lemma_targets_stay_free<P>(disk: Disk<P>, tasks: Seq<CopyTask<P>>)
    requires
        targets_are_free(disk, tasks),
    ensures
        targets_are_free(disk, tasks_after_step(disk, tasks)),
{
    let rest = tasks_after_taking(tasks);
    let after = tasks_after_step(disk, tasks);
    assert forall|i: int| 0 <= i < rest.len() implies (#[trigger] rest[i] matches CopyTask::File { to, .. }
        ==> !(disk.taken)(to)) by {
        assert(rest[i] == tasks[i + 1]);
    }
    let added = after.len() - rest.len();
    assert forall|i: int| 0 <= i < after.len() implies (#[trigger] after[i] matches CopyTask::File { to, .. }
        ==> !(disk.taken)(to)) by {
        if i >= added {
            assert(after[i] == rest[i - added]);
        }
    }
}

proof fn lemma_copied_targets_were_free<P>(disk: Disk<P>, tasks: Seq<CopyTask<P>>, steps: nat)
    requires
        targets_are_free(disk, tasks),
    ensures
        forall|i: int|
            0 <= i < copied_in(disk, tasks, steps).len() ==> !(disk.taken)(
                (#[trigger] copied_in(disk, tasks, steps)[i]).1,
            ),
    decreases steps,
{
    if steps > 0 {
        let next = tasks_after_step(disk, tasks);
        let later = copied_in(disk, next, (steps - 1) as nat);
        let all = copied_in(disk, tasks, steps);
        lemma_targets_stay_free(disk, tasks);
        lemma_copied_targets_were_free(disk, next, (steps - 1) as nat);
        assert forall|i: int| 0 <= i < all.len() implies !(disk.taken)((#[trigger] all[i]).1) by {
            let added = all.len() - later.len();
            if i >= added {
                assert(all[i] == later[i - added]);
            } else {
                assert(tasks[0] is File);
            }
        }
    }
}

/// However far a walk has come, it has copied no file to where one was before.
pub proof fn copied_targets_were_free<P>(disk: Disk<P>, from: P, to: P, steps: nat)
    ensures
        forall|i: int|
            0 <= i < copied_in(disk, seq![CopyTask::Folder { from, to }], steps).len() ==> !(disk.taken)(
                (#[trigger] copied_in(disk, seq![CopyTask::Folder { from, to }], steps)[i]).1,
            ),
{
    lemma_copied_targets_were_free(disk, seq![CopyTask::Folder { from, to }], steps);
}

/// Of two folders that are copied one after the other, the second replaces nothing
/// that the first gave: where the targets that the first walk copied to are taken
/// for the second one, that one copies to none of them.
pub proof fn later_source_replaces_nothing<P>(
    first: Disk<P>,
    first_from: P,
    first_to: P,
    first_steps: nat,
    second: Disk<P>,
    second_from: P,
    second_to: P,
    second_steps: nat,
)
    requires
        forall|i: int|
            0 <= i < copied_in(first, seq![CopyTask::Folder { from: first_from, to: first_to }], first_steps).len()
                ==> (second.taken)(
                (#[trigger] copied_in(
                    first,
                    seq![CopyTask::Folder { from: first_from, to: first_to }],
                    first_steps,
                )[i]).1,
            ),
    ensures
        forall|i: int, j: int|
            0 <= i < copied_in(first, seq![CopyTask::Folder { from: first_from, to: first_to }], first_steps).len()
                && 0 <= j < copied_in(
                second,
                seq![CopyTask::Folder { from: second_from, to: second_to }],
                second_steps,
            ).len() ==> (#[trigger] copied_in(
                first,
                seq![CopyTask::Folder { from: first_from, to: first_to }],
                first_steps,
            )[i]).1 != (#[trigger] copied_in(
                second,
                seq![CopyTask::Folder { from: second_from, to: second_to }],
                second_steps,
            )[j]).1,
{
    copied_targets_were_free(second, second_from, second_to, second_steps);
}

/// The next action is that of the first task, on its own source and target: a folder
/// is opened, an entry inspected, a file copied, and a failure given with its
/// reason. Where no task is left, all is done.
pub proof fn actions_belong_to_the_first_task<P>(tasks: Seq<CopyTask<P>>, source: P, target: P, why: String)
    ensures
        action_for(tasks) is Done <==> tasks.len() == 0,
        tasks.len() > 0 ==> {
            &&& action_for(tasks) == (CopyAction::Open { from: source, to: target }) <==> tasks[0]
                == (CopyTask::Folder { from: source, to: target })
            &&& action_for(tasks) == (CopyAction::Inspect { from: source, to: target }) <==> tasks[0]
                == (CopyTask::Entry { from: source, to: target })
            &&& action_for(tasks) == (CopyAction::Copy { from: source, to: target }) <==> tasks[0]
                == (CopyTask::File { from: source, to: target })
            &&& action_for(tasks) == (CopyAction::<P>::Failed { reason: why }) <==> tasks[0]
                == (CopyTask::<P>::Fail { reason: why })
            &&& !(tasks[0] is Fail) ==> tasks == seq![tasks[0]] + tasks_after_taking(tasks)
        },
{
    if tasks.len() > 0 {
        assert(tasks == seq![tasks[0]] + tasks.drop_first());
    }
}

/// What is found changes the tasks: the entries of a folder come next, one task for
/// each in its place, and a missing folder or a copied file leaves the rest as it is.
pub proof fn entries_come_next<P>(tasks: Seq<CopyTask<P>>, entries: Seq<Result<(P, P), String>>, i: int)
    ensures
        tasks_after_listing(tasks, entries).len() == entries.len() + tasks.len(),
        0 <= i < entries.len() ==> match entries[i] {
            Ok((from, to)) => tasks_after_listing(tasks, entries)[i] == (CopyTask::Entry { from, to }),
            Err(reason) => tasks_after_listing(tasks, entries)[i] == (CopyTask::<P>::Fail { reason }),
        },
        0 <= i < tasks.len() ==> tasks_after_listing(tasks, entries)[entries.len() + i] == tasks[i],
        tasks_after_opening(tasks, Opened::Missing) == tasks,
        tasks_after_copying(tasks, Ok(())) == tasks,
        forall|opened: Vec<Result<(P, P), String>>| #[trigger]
            tasks_after_opening(tasks, Opened::Entries(opened)) == tasks_after_listing(tasks, opened@),
{
}

/// Which files belong to a folder: those of its entries, part by part in their
/// order. An entry that is a folder stands for the files of that folder, any other
/// entry for itself where its target is not taken, and for nothing where it is.
pub proof fn files_of_folders<P>(disk: Disk<P>, from: P, to: P, depth: nat, entries: Seq<(P, P)>, n: int)
    requires
        0 <= n <= entries.len(),
    ensures
        (disk.entries)(from, to) == Some(entries) ==> files_of_folder(disk, from, to, depth + 1) == files_of_entries(
            disk,
            entries,
            depth,
        ),
        (disk.entries)(from, to) is None ==> files_of_folder(disk, from, to, depth).len() == 0,
        files_of_entries(disk, entries, depth) == files_of_entries(disk, entries.take(n), depth) + files_of_entries(
            disk,
            entries.skip(n),
            depth,
        ),
        files_of_entries(disk, seq![(from, to)], depth) == if (disk.is_folder)(from) {
            files_of_folder(disk, from, to, depth)
        } else if (disk.taken)(to) {
            Seq::empty()
        } else {
            seq![(from, to)]
        },
{
    let one = seq![(from, to)];
    let none = Seq::<(P, P)>::empty();
    reveal_with_fuel(files_of_entries, 2);
    assert(one.drop_first() == none);
    assert(files_of_entries(disk, none, depth) == none);
    assert(files_of_folder(disk, from, to, depth) + none == files_of_folder(disk, from, to, depth));
    assert(one + none == one);
    assert(none + none == none);
    lemma_files_split(disk, entries, depth, n);
}

proof fn lemma_files_split<P>(disk: Disk<P>, entries: Seq<(P, P)>, depth: nat, n: int)
    requires
        0 <= n <= entries.len(),
    ensures
        files_of_entries(disk, entries, depth) == files_of_entries(disk, entries.take(n), depth) + files_of_entries(
            disk,
            entries.skip(n),
            depth,
        ),
    decreases n,
{
    if n == 0 {
        assert(entries.skip(0) == entries);
        assert(entries.take(0).len() == 0);
        assert(files_of_entries(disk, entries.take(0), depth) == Seq::<(P, P)>::empty());
    } else {
        let rest = entries.drop_first();
        lemma_files_split(disk, rest, depth, n - 1);
        assert(entries.take(n).drop_first() == rest.take(n - 1));
        assert(entries.take(n)[0] == entries[0]);
        assert(entries.skip(n) == rest.skip(n - 1));
        let (from, to) = entries[0];
        let first = if (disk.is_folder)(from) {
            files_of_folder(disk, from, to, depth)
        } else if !(disk.taken)(to) {
            seq![(from, to)]
        } else {
            Seq::empty()
        };
        assert(files_of_entries(disk, entries, depth) == first + files_of_entries(disk, rest, depth));
        assert(files_of_entries(disk, entries.take(n), depth) == first + files_of_entries(
            disk,
            rest.take(n - 1),
            depth,
        ));
    }
}

} // verus!
