//! Workspaces: the layer between an output and the windows on it.
//!
//! An output owns one or more workspaces, and a workspace owns the toplevel
//! windows shown together on it. Exactly one workspace per output is on screen
//! at a time, so the windows of the others stay in state - positions, stacking
//! and all - while being drawn nowhere and hit-testable by nothing.
//!
//! Every output gets one workspace by default and nothing yet creates a
//! second, but the collection is a `Vec` rather than a single field so that
//! adding, removing and switching workspaces later is a matter of policy
//! rather than another change of shape.
//!
//! A window lives in exactly one workspace, and that membership is the only
//! record of which output it is on: the workspace holding it belongs to one
//! output, so there is nowhere for a second, disagreeing answer to be stored.
//! Windows mapped while there is no output at all are held aside as unplaced
//! and re-homed as soon as one appears.

use crate::seqs;
use crate::shared::{Output, OutputId};
use vstd::prelude::*;

verus! {

/// A client object-id tuple holding a `client_id` paired with an object id.
/// This pair is needed because object ids are only unique per client, so the
/// `client_id` is paired to make it unique
pub type ClientObjectId = (u32, u32);

/// Where the first window on a workspace is placed, relative to its output.
pub const CASCADE_START: i32 = 50;

/// How far each subsequent window is offset from the last.
pub const CASCADE_STEP: i32 = 50;

/// A unique workspace id.
///
/// Drawn from a counter that never repeats, so an id belonging to a workspace
/// that has gone can never name a later one.
#[derive(Debug, Clone, Copy, PartialEq, Eq, Hash, Structural)]
pub struct WorkspaceId(pub u32);

/// Every window but one.
pub open spec fn other_than(key: ClientObjectId) -> spec_fn(ClientObjectId) -> bool {
    |k: ClientObjectId| k != key
}

/// Everything that does not belong to a client.
pub open spec fn of_others(client_id: u32) -> spec_fn(ClientObjectId) -> bool {
    |k: ClientObjectId| k.0 != client_id
}

/// A stack with one window taken out of it.
pub open spec fn stack_without(s: Seq<ClientObjectId>, key: ClientObjectId) -> Seq<ClientObjectId> {
    s.filter(other_than(key))
}

/// A stack with one window on top of it.
pub open spec fn stack_raised(s: Seq<ClientObjectId>, key: ClientObjectId) -> Seq<ClientObjectId> {
    stack_without(s, key).push(key)
}

/// A stack with the windows of one client taken out of it.
pub open spec fn stack_without_client(s: Seq<ClientObjectId>, client_id: u32) -> Seq<
    ClientObjectId,
> {
    s.filter(of_others(client_id))
}

/// Take one window out of a stack.
pub fn retain_other(stack: &mut Vec<ClientObjectId>, key: ClientObjectId)
    ensures
        final(stack)@ == stack_without(old(stack)@, key),
{
    let mut kept: Vec<ClientObjectId> = Vec::new();
    let mut i: usize = 0;
    assert(stack@.take(0) =~= Seq::empty());
    assert(kept@ =~= stack_without(stack@.take(0), key)) by {
        reveal(Seq::filter);
    }
    while i < stack.len()
        invariant
            i <= stack@.len(),
            stack@ == old(stack)@,
            kept@ == stack_without(stack@.take(i as int), key),
        decreases stack@.len() - i,
    {
        proof {
            seqs::lemma_filter_step(stack@, other_than(key), i as int);
        }
        let k = stack[i];
        if k.0 != key.0 || k.1 != key.1 {
            kept.push(k);
        }
        i = i + 1;
    }
    assert(stack@.take(i as int) =~= stack@);
    *stack = kept;
}

/// Take the windows of one client out of a stack.
pub fn retain_other_clients(stack: &mut Vec<ClientObjectId>, client_id: u32)
    ensures
        final(stack)@ == stack_without_client(old(stack)@, client_id),
{
    let mut kept: Vec<ClientObjectId> = Vec::new();
    let mut i: usize = 0;
    assert(stack@.take(0) =~= Seq::empty());
    assert(kept@ =~= stack_without_client(stack@.take(0), client_id)) by {
        reveal(Seq::filter);
    }
    while i < stack.len()
        invariant
            i <= stack@.len(),
            stack@ == old(stack)@,
            kept@ == stack_without_client(stack@.take(i as int), client_id),
        decreases stack@.len() - i,
    {
        proof {
            seqs::lemma_filter_step(stack@, of_others(client_id), i as int);
        }
        let k = stack[i];
        if k.0 != client_id {
            kept.push(k);
        }
        i = i + 1;
    }
    assert(stack@.take(i as int) =~= stack@);
    *stack = kept;
}

/// The same keys again.
pub fn copy_keys(keys: &Vec<ClientObjectId>) -> (r: Vec<ClientObjectId>)
    ensures
        r@ == keys@,
{
    let mut r: Vec<ClientObjectId> = Vec::new();
    append_keys(&mut r, keys);
    assert(r@ =~= keys@);
    r
}

/// Add keys behind the ones there are.
pub fn append_keys(to: &mut Vec<ClientObjectId>, keys: &Vec<ClientObjectId>)
    ensures
        final(to)@ == old(to)@ + keys@,
{
    let mut i: usize = 0;
    while i < keys.len()
        invariant
            i <= keys@.len(),
            to@ == old(to)@ + keys@.take(i as int),
        decreases keys@.len() - i,
    {
        to.push(keys[i]);
        assert(keys@.take(i as int + 1) =~= keys@.take(i as int).push(keys@[i as int]));
        i = i + 1;
    }
    assert(keys@.take(i as int) =~= keys@);
}

/// Whether a window is in a stack.
pub fn stack_contains(stack: &Vec<ClientObjectId>, key: ClientObjectId) -> (r: bool)
    ensures
        r == stack@.contains(key),
{
    let mut i: usize = 0;
    while i < stack.len()
        invariant
            i <= stack@.len(),
            forall|j: int| 0 <= j < i ==> #[trigger] stack@[j] != key,
        decreases stack@.len() - i,
    {
        let k = stack[i];
        if k.0 == key.0 && k.1 == key.1 {
            assert(stack@[i as int] == key);
            return true;
        }
        i = i + 1;
    }
    false
}

/// One workspace: the windows shown together on an output.
#[derive(Debug)]
pub struct Workspace {
    /// The workspace id
    pub id: WorkspaceId,
    /// Toplevel draw order, bottom to top. Popups and subsurfaces are not
    /// here: they hang off a toplevel and travel with it.
    pub surface_stack: Vec<ClientObjectId>,
    /// Where the next window opening here is placed, in coordinates local to
    /// the output. Per workspace, so each one cascades from its own top-left.
    pub next_position: (i32, i32),
}

/// A workspace, its stack as a sequence.
#[verifier::ext_equal]
pub struct WorkspaceView {
    pub id: WorkspaceId,
    pub stack: Seq<ClientObjectId>,
    pub next: (i32, i32),
}

impl View for Workspace {
    type V = WorkspaceView;

    open spec fn view(&self) -> WorkspaceView {
        WorkspaceView { id: self.id, stack: self.surface_stack@, next: self.next_position }
    }
}

/// Where a window opens, given where the last one left off: back at the start
/// once that is past a limit.
pub open spec fn cascade_slot(next: (i32, i32), limit_x: i32, limit_y: i32) -> (i32, i32) {
    if next.0 >= limit_x || next.1 >= limit_y {
        (CASCADE_START, CASCADE_START)
    } else {
        next
    }
}

impl WorkspaceView {
    /// A new workspace has no windows and starts its cascade over.
    pub open spec fn fresh(id: WorkspaceId) -> Self {
        WorkspaceView { id, stack: Seq::empty(), next: (CASCADE_START, CASCADE_START) }
    }

    /// The workspace with one window taken out.
    pub open spec fn without(self, key: ClientObjectId) -> Self {
        WorkspaceView { stack: stack_without(self.stack, key), ..self }
    }

    /// The workspace with one window on top.
    pub open spec fn raised(self, key: ClientObjectId) -> Self {
        WorkspaceView { stack: stack_raised(self.stack, key), ..self }
    }

    /// The workspace with the windows of one client taken out.
    pub open spec fn without_client(self, client_id: u32) -> Self {
        WorkspaceView { stack: stack_without_client(self.stack, client_id), ..self }
    }

    /// The workspace once the cascade has moved on.
    pub open spec fn cascaded(self, limit_x: i32, limit_y: i32) -> Self {
        let slot = cascade_slot(self.next, limit_x, limit_y);
        WorkspaceView {
            next: ((slot.0 + CASCADE_STEP) as i32, (slot.1 + CASCADE_STEP) as i32),
            ..self
        }
    }
}

impl Workspace {
    /// Create an empty workspace with the given id
    pub fn new(id: WorkspaceId) -> (r: Self)
        ensures
            r@ == WorkspaceView::fresh(id),
    {
        Self { id, surface_stack: Vec::new(), next_position: (CASCADE_START, CASCADE_START) }
    }

    /// The position for the next window to open here, in output-local
    /// coordinates, and advance the cascade.
    ///
    /// Restarts at the top-left rather than marching off the far edge of the
    /// output. The limits are the caller's to choose because only it knows how
    /// big the output currently is.
    pub fn next_cascade_slot(&mut self, limit_x: i32, limit_y: i32) -> (r: (i32, i32))
        requires
            limit_x <= i32::MAX - CASCADE_STEP,
            limit_y <= i32::MAX - CASCADE_STEP,
        ensures
            r == cascade_slot(old(self)@.next, limit_x, limit_y),
            final(self)@ == old(self)@.cascaded(limit_x, limit_y),
    {
        let (x, y): (i32, i32) = self.next_position;
        let (x, y): (i32, i32) = if x >= limit_x || y >= limit_y {
            (CASCADE_START, CASCADE_START)
        } else {
            (x, y)
        };
        self.next_position = (x + CASCADE_STEP, y + CASCADE_STEP);
        (x, y)
    }

    /// Put a window on top of this workspace's stack, adding it if it is new.
    pub fn raise(&mut self, key: ClientObjectId)
        ensures
            final(self)@ == old(self)@.raised(key),
    {
        retain_other(&mut self.surface_stack, key);
        self.surface_stack.push(key);
    }

    /// The topmost window here, if any.
    pub fn top(&self) -> (r: Option<ClientObjectId>)
        ensures
            r == top_of(self@.stack),
    {
        let n: usize = self.surface_stack.len();
        if n == 0 {
            None
        } else {
            Some(self.surface_stack[n - 1])
        }
    }
}

/// The window on top of a stack.
pub open spec fn top_of(stack: Seq<ClientObjectId>) -> Option<ClientObjectId> {
    if stack.len() == 0 {
        None
    } else {
        Some(stack.last())
    }
}

/// The workspaces belonging to one output.
///
/// Never empty: an output always has the workspace it was given when it
/// appeared, so there is always somewhere for a window to go.
#[derive(Debug)]
pub struct OutputWorkspaces {
    /// The output these belong to.
    pub output: OutputId,
    /// The workspaces on this output, in the order they were created.
    pub workspaces: Vec<Workspace>,
    /// Index into `workspaces` of the one on screen.
    pub active: usize,
}

/// The workspaces of one output, as a sequence.
#[verifier::ext_equal]
pub struct OutputWorkspacesView {
    pub output: OutputId,
    pub workspaces: Seq<WorkspaceView>,
    pub active: int,
}

impl View for OutputWorkspaces {
    type V = OutputWorkspacesView;

    open spec fn view(&self) -> OutputWorkspacesView {
        OutputWorkspacesView {
            output: self.output,
            workspaces: self.workspaces@.map_values(|w: Workspace| w@),
            active: self.active as int,
        }
    }
}

impl OutputWorkspacesView {
    /// One of the workspaces is the one on screen.
    pub open spec fn wf(self) -> bool {
        0 <= self.active < self.workspaces.len()
    }

    /// What an output starts off with.
    pub open spec fn fresh(output: OutputId, id: WorkspaceId) -> Self {
        OutputWorkspacesView { output, workspaces: seq![WorkspaceView::fresh(id)], active: 0 }
    }

    /// The workspace on screen.
    pub open spec fn shown(self) -> WorkspaceView {
        self.workspaces[self.active]
    }

    /// The output once the workspace on screen is another.
    pub open spec fn with_shown(self, w: WorkspaceView) -> Self {
        OutputWorkspacesView { workspaces: self.workspaces.update(self.active, w), ..self }
    }

    /// The output with one window taken out of its workspaces.
    pub open spec fn without(self, key: ClientObjectId) -> Self {
        OutputWorkspacesView {
            workspaces: self.workspaces.map_values(|w: WorkspaceView| w.without(key)),
            ..self
        }
    }

    /// The output with the windows of one client taken out of its workspaces.
    pub open spec fn without_client(self, client_id: u32) -> Self {
        OutputWorkspacesView {
            workspaces: self.workspaces.map_values(
                |w: WorkspaceView| w.without_client(client_id),
            ),
            ..self
        }
    }

    /// A window is in one of these workspaces.
    pub open spec fn holds(self, key: ClientObjectId) -> bool {
        exists|i: int|
            0 <= i < self.workspaces.len() && (#[trigger] self.workspaces[i]).stack.contains(key)
    }
}

impl OutputWorkspaces {
    /// Start an output off with a single workspace.
    pub fn new(output: OutputId, first: Workspace) -> (r: Self)
        ensures
            r@ == (OutputWorkspacesView { output, workspaces: seq![first@], active: 0 }),
    {
        let mut workspaces: Vec<Workspace> = Vec::new();
        workspaces.push(first);
        let r = Self { output, workspaces, active: 0 };
        assert(r@.workspaces =~= seq![first@]);
        r
    }

    /// Every workspace on this output, on screen or not.
    pub fn iter(&self) -> (r: Vec<&Workspace>)
        ensures
            r@.map_values(|w: &Workspace| w@) == self@.workspaces,
    {
        let mut r: Vec<&Workspace> = Vec::new();
        let mut i: usize = 0;
        while i < self.workspaces.len()
            invariant
                i <= self.workspaces@.len(),
                r@.len() == i,
                forall|j: int| 0 <= j < i ==> (#[trigger] r@[j])@ == self.workspaces@[j]@,
            decreases self.workspaces@.len() - i,
        {
            r.push(&self.workspaces[i]);
            i = i + 1;
        }
        assert(r@.map_values(|w: &Workspace| w@) =~= self@.workspaces);
        r
    }

    /// The workspace currently on screen.
    pub fn active(&self) -> (r: Option<&Workspace>)
        ensures
            r is Some == self@.wf(),
            r matches Some(w) ==> w@ == self@.shown(),
    {
        if self.active < self.workspaces.len() {
            Some(&self.workspaces[self.active])
        } else {
            None
        }
    }

    /// The workspace currently on screen, for modification.
    pub fn active_mut(&mut self) -> (r: Option<&mut Workspace>)
        ensures
            r is Some == old(self)@.wf(),
            r matches Some(w) ==> w@ == old(self)@.shown(),
            r matches Some(w) ==> final(self)@ == old(self)@.with_shown(final(w)@),
            r is None ==> final(self)@ == old(self)@,
    {
        if self.active < self.workspaces.len() {
            let i: usize = self.active;
            proof {
                assert forall|s: Seq<Workspace>, w: Workspace|
                    #![trigger s.update(i as int, w)]
                    i < s.len() implies s.update(i as int, w).map_values(|w: Workspace| w@)
                    == s.map_values(|w: Workspace| w@).update(i as int, w@) by {
                    assert(s.update(i as int, w).map_values(|w: Workspace| w@)
                        =~= s.map_values(|w: Workspace| w@).update(i as int, w@));
                }
            }
            Some(&mut self.workspaces[i])
        } else {
            None
        }
    }

    /// Take a window out of these workspaces.
    pub fn remove(&mut self, key: ClientObjectId)
        ensures
            final(self)@ == old(self)@.without(key),
    {
        let mut i: usize = 0;
        let ghost before = self.workspaces@;
        while i < self.workspaces.len()
            invariant
                i <= self.workspaces@.len(),
                self.workspaces@.len() == before.len(),
                self.output == old(self).output,
                self.active == old(self).active,
                forall|j: int| 0 <= j < i ==> (#[trigger] self.workspaces@[j])@ == before[j]@.without(key),
                forall|j: int| i <= j < before.len() ==> #[trigger] self.workspaces@[j] == before[j],
            decreases self.workspaces@.len() - i,
        {
            retain_other(&mut self.workspaces[i].surface_stack, key);
            i = i + 1;
        }
        assert(self@.workspaces =~= old(self)@.without(key).workspaces);
    }

    /// Take the windows of a client out of these workspaces.
    pub fn remove_client(&mut self, client_id: u32)
        ensures
            final(self)@ == old(self)@.without_client(client_id),
    {
        let mut i: usize = 0;
        let ghost before = self.workspaces@;
        while i < self.workspaces.len()
            invariant
                i <= self.workspaces@.len(),
                self.workspaces@.len() == before.len(),
                self.output == old(self).output,
                self.active == old(self).active,
                forall|j: int|
                    0 <= j < i ==> (#[trigger] self.workspaces@[j])@ == before[j]@.without_client(
                        client_id,
                    ),
                forall|j: int| i <= j < before.len() ==> #[trigger] self.workspaces@[j] == before[j],
            decreases self.workspaces@.len() - i,
        {
            retain_other_clients(&mut self.workspaces[i].surface_stack, client_id);
            i = i + 1;
        }
        assert(self@.workspaces =~= old(self)@.without_client(client_id).workspaces);
    }

    /// Which of these workspaces a window is in.
    pub fn slot_of(&self, key: ClientObjectId) -> (r: Option<usize>)
        ensures
            r is Some == self@.holds(key),
            r matches Some(i) ==> i < self@.workspaces.len()
                && self@.workspaces[i as int].stack.contains(key) && forall|j: int|
                0 <= j < i ==> !(#[trigger] self@.workspaces[j]).stack.contains(key),
    {
        let mut i: usize = 0;
        while i < self.workspaces.len()
            invariant
                i <= self.workspaces@.len(),
                forall|j: int|
                    0 <= j < i ==> !(#[trigger] self@.workspaces[j]).stack.contains(key),
            decreases self.workspaces@.len() - i,
        {
            if stack_contains(&self.workspaces[i].surface_stack, key) {
                assert(self@.workspaces[i as int].stack.contains(key));
                return Some(i);
            }
            i = i + 1;
        }
        None
    }
}

/// Every workspace the compositor has, arranged under the outputs that own
/// them, plus the windows that have nowhere to live yet.
#[derive(Debug)]
pub struct Workspaces {
    /// One entry per output, in the order the outputs arrived.
    outputs: Vec<OutputWorkspaces>,
    /// Windows mapped before any output existed, or left behind by one that
    /// has gone. They are drawn nowhere until re-homed.
    unplaced: Vec<ClientObjectId>,
    /// Source of workspace ids. Only ever incremented.
    next_id: u32,
}

/// All the workspaces, as sequences.
#[verifier::ext_equal]
pub struct WorkspacesView {
    pub outputs: Seq<OutputWorkspacesView>,
    pub unplaced: Seq<ClientObjectId>,
    pub next_id: u32,
}

impl View for Workspaces {
    type V = WorkspacesView;

    closed spec fn view(&self) -> WorkspacesView {
        WorkspacesView {
            outputs: self.outputs@.map_values(|e: OutputWorkspaces| e@),
            unplaced: self.unplaced@,
            next_id: self.next_id,
        }
    }
}

/// The entry of an output.
pub open spec fn entry_for(output: OutputId) -> spec_fn(OutputWorkspacesView) -> bool {
    |e: OutputWorkspacesView| e.output == output
}

/// An entry with a window in it.
pub open spec fn entry_holding(key: ClientObjectId) -> spec_fn(OutputWorkspacesView) -> bool {
    |e: OutputWorkspacesView| e.holds(key)
}

/// An entry whose output is still there.
pub open spec fn entry_live(ids: Seq<OutputId>) -> spec_fn(OutputWorkspacesView) -> bool {
    |e: OutputWorkspacesView| ids.contains(e.output)
}

/// An entry whose output has gone.
pub open spec fn entry_gone(ids: Seq<OutputId>) -> spec_fn(OutputWorkspacesView) -> bool {
    |e: OutputWorkspacesView| !ids.contains(e.output)
}

/// A workspace with a window in it.
pub open spec fn workspace_holding(key: ClientObjectId) -> spec_fn(WorkspaceView) -> bool {
    |w: WorkspaceView| w.stack.contains(key)
}

/// The windows of some workspaces, one stack after another.
pub open spec fn stacks(workspaces: Seq<WorkspaceView>) -> Seq<ClientObjectId>
    decreases workspaces.len(),
{
    if workspaces.len() == 0 {
        Seq::empty()
    } else {
        stacks(workspaces.drop_last()) + workspaces.last().stack
    }
}

/// The windows of some outputs, one output after another.
pub open spec fn all_stacks(outputs: Seq<OutputWorkspacesView>) -> Seq<ClientObjectId>
    decreases outputs.len(),
{
    if outputs.len() == 0 {
        Seq::empty()
    } else {
        all_stacks(outputs.drop_last()) + stacks(outputs.last().workspaces)
    }
}

/// The windows of one output with the output they are on.
pub open spec fn tagged(output: OutputId, keys: Seq<ClientObjectId>) -> Seq<
    (OutputId, ClientObjectId),
> {
    keys.map_values(|k: ClientObjectId| (output, k))
}

/// The workspaces of some outputs, each with the output it belongs to.
pub open spec fn all_workspaces(outputs: Seq<OutputWorkspacesView>) -> Seq<
    (OutputId, WorkspaceView),
>
    decreases outputs.len(),
{
    if outputs.len() == 0 {
        Seq::empty()
    } else {
        let output = outputs.last().output;
        all_workspaces(outputs.drop_last()) + outputs.last().workspaces.map_values(
            |w: WorkspaceView| (output, w),
        )
    }
}

/// The windows of some outputs, each with the output it is on.
pub open spec fn all_windows(outputs: Seq<OutputWorkspacesView>) -> Seq<(OutputId, ClientObjectId)>
    decreases outputs.len(),
{
    if outputs.len() == 0 {
        Seq::empty()
    } else {
        all_windows(outputs.drop_last()) + tagged(
            outputs.last().output,
            stacks(outputs.last().workspaces),
        )
    }
}

impl OutputWorkspacesView {
    /// The output with a window on top of the workspace it is in.
    pub open spec fn raised(self, key: ClientObjectId) -> Self {
        match seqs::first(self.workspaces, workspace_holding(key)) {
            Some(j) => OutputWorkspacesView {
                workspaces: self.workspaces.update(j, self.workspaces[j].raised(key)),
                ..self
            },
            None => self,
        }
    }
}

/// The next workspace id after one.
pub open spec fn following(id: u32) -> u32 {
    if id == u32::MAX {
        id
    } else {
        (id + 1) as u32
    }
}

impl WorkspacesView {
    /// There are no outputs and no windows.
    pub open spec fn empty() -> Self {
        WorkspacesView { outputs: Seq::empty(), unplaced: Seq::empty(), next_id: 0 }
    }

    /// Every output has a workspace on screen.
    pub open spec fn wf(self) -> bool {
        forall|i: int| 0 <= i < self.outputs.len() ==> (#[trigger] self.outputs[i]).wf()
    }

    /// Where an output stands.
    pub open spec fn entry(self, output: OutputId) -> Option<int> {
        seqs::first(self.outputs, entry_for(output))
    }

    /// The workspace on screen on an output.
    pub open spec fn active(self, output: OutputId) -> Option<WorkspaceView> {
        match self.entry(output) {
            Some(i) if self.outputs[i].wf() => Some(self.outputs[i].shown()),
            _ => None,
        }
    }

    /// All the workspaces once the one on screen on an output is another.
    pub open spec fn with_active(self, output: OutputId, w: WorkspaceView) -> Self {
        match self.entry(output) {
            Some(i) => WorkspacesView {
                outputs: self.outputs.update(i, self.outputs[i].with_shown(w)),
                ..self
            },
            None => self,
        }
    }

    /// The windows drawn on an output, bottom to top.
    pub open spec fn visible_stack(self, output: OutputId) -> Seq<ClientObjectId> {
        match self.active(output) {
            Some(w) => w.stack,
            None => Seq::empty(),
        }
    }

    /// Which output and workspace a window is in.
    pub open spec fn find(self, key: ClientObjectId) -> Option<(OutputId, WorkspaceId)> {
        match seqs::first(self.outputs, entry_holding(key)) {
            Some(i) => match seqs::first(self.outputs[i].workspaces, workspace_holding(key)) {
                Some(j) => Some((self.outputs[i].output, self.outputs[i].workspaces[j].id)),
                None => None,
            },
            None => None,
        }
    }

    /// Which output a window is on.
    pub open spec fn output_of(self, key: ClientObjectId) -> Option<OutputId> {
        match self.find(key) {
            Some((output, _)) => Some(output),
            None => None,
        }
    }

    /// A window is in a workspace that is on screen.
    pub open spec fn is_visible(self, key: ClientObjectId) -> bool {
        exists|i: int|
            0 <= i < self.outputs.len() && (#[trigger] self.outputs[i]).wf()
                && self.outputs[i].shown().stack.contains(key)
    }

    /// All the workspaces with one window taken out.
    pub open spec fn removed(self, key: ClientObjectId) -> Self {
        WorkspacesView {
            outputs: self.outputs.map_values(|e: OutputWorkspacesView| e.without(key)),
            unplaced: stack_without(self.unplaced, key),
            ..self
        }
    }

    /// All the workspaces with the windows of a client taken out.
    pub open spec fn client_removed(self, client_id: u32) -> Self {
        WorkspacesView {
            outputs: self.outputs.map_values(
                |e: OutputWorkspacesView| e.without_client(client_id),
            ),
            unplaced: stack_without_client(self.unplaced, client_id),
            ..self
        }
    }

    /// All the workspaces with a window on top of the one showing on an
    /// output, and nowhere else.
    pub open spec fn placed(self, output: OutputId, key: ClientObjectId) -> Self {
        match self.active(output) {
            None => self,
            Some(w) => self.removed(key).with_active(output, w.raised(key)),
        }
    }

    /// All the workspaces with a window on top of its own.
    pub open spec fn raised(self, key: ClientObjectId) -> Self {
        match seqs::first(self.outputs, entry_holding(key)) {
            Some(i) => WorkspacesView {
                outputs: self.outputs.update(i, self.outputs[i].raised(key)),
                ..self
            },
            None => self,
        }
    }

    /// All the workspaces with a window held aside.
    pub open spec fn held(self, key: ClientObjectId) -> Self {
        if self.unplaced.contains(key) {
            self
        } else {
            WorkspacesView { unplaced: self.unplaced.push(key), ..self }
        }
    }

    /// All the workspaces with no window held aside any more.
    pub open spec fn unheld(self) -> Self {
        WorkspacesView { unplaced: Seq::empty(), ..self }
    }

    /// All the workspaces once an output has somewhere to put a window.
    pub open spec fn grown(self, id: OutputId) -> Self {
        if self.entry(id) is Some {
            self
        } else {
            let next = following(self.next_id);
            WorkspacesView {
                outputs: self.outputs.push(OutputWorkspacesView::fresh(id, WorkspaceId(next))),
                next_id: next,
                ..self
            }
        }
    }

    /// All the workspaces once each of these outputs has somewhere to put a
    /// window, in their order.
    pub open spec fn grown_all(self, ids: Seq<OutputId>) -> Self
        decreases ids.len(),
    {
        if ids.len() == 0 {
            self
        } else {
            self.grown_all(ids.drop_last()).grown(ids.last())
        }
    }

    /// All the workspaces once the outputs that have gone have given their
    /// windows back.
    pub open spec fn shrunk(self, ids: Seq<OutputId>) -> Self {
        WorkspacesView {
            outputs: self.outputs.filter(entry_live(ids)),
            unplaced: self.unplaced + all_stacks(self.outputs.filter(entry_gone(ids))),
            ..self
        }
    }

    /// All the workspaces once they agree with the outputs there are.
    pub open spec fn synced(self, ids: Seq<OutputId>) -> Self {
        self.shrunk(ids).grown_all(ids)
    }

    /// They agree already.
    pub open spec fn in_step(self, ids: Seq<OutputId>) -> bool {
        &&& forall|i: int|
            0 <= i < self.outputs.len() ==> ids.contains((#[trigger] self.outputs[i]).output)
        &&& forall|i: int| 0 <= i < ids.len() ==> self.entry(#[trigger] ids[i]) is Some
    }
}

/// The ids of some outputs.
pub open spec fn ids_of(outputs: Seq<Output>) -> Seq<OutputId> {
    outputs.map_values(|o: Output| o.id)
}

fn listed(outputs: &Vec<Output>, id: OutputId) -> (r: bool)
    ensures
        r == ids_of(outputs@).contains(id),
{
    let mut i: usize = 0;
    while i < outputs.len()
        invariant
            i <= outputs@.len(),
            forall|j: int| 0 <= j < i ==> (#[trigger] outputs@[j]).id != id,
        decreases outputs@.len() - i,
    {
        if outputs[i].id == id {
            assert(ids_of(outputs@)[i as int] == id);
            return true;
        }
        i = i + 1;
    }
    proof {
        if ids_of(outputs@).contains(id) {
            let j = choose|j: int| 0 <= j < ids_of(outputs@).len() && ids_of(outputs@)[j] == id;
            assert(outputs@[j].id == id);
        }
    }
    false
}

impl Workspaces {
    /// Create the collection for a compositor with no outputs yet.
    pub fn new() -> (r: Self)
        ensures
            r@ == WorkspacesView::empty(),
    {
        let r = Self { outputs: Vec::new(), unplaced: Vec::new(), next_id: 0 };
        assert(r@.outputs =~= Seq::empty());
        r
    }

    /// Where an output stands.
    fn entry(&self, output: OutputId) -> (r: Option<usize>)
        ensures
            match r {
                Some(i) => i < self.outputs@.len() && self@.entry(output) == Some(i as int),
                None => self@.entry(output) is None,
            },
    {
        let mut i: usize = 0;
        while i < self.outputs.len()
            invariant
                i <= self.outputs@.len(),
                forall|j: int|
                    0 <= j < i ==> !entry_for(output)(#[trigger] self@.outputs[j]),
            decreases self.outputs@.len() - i,
        {
            if self.outputs[i].output == output {
                proof {
                    seqs::lemma_first(self@.outputs, entry_for(output), i as int);
                }
                return Some(i);
            }
            i = i + 1;
        }
        proof {
            seqs::lemma_first_none(self@.outputs, entry_for(output));
        }
        None
    }

    /// Give every output a workspace, and take back the windows of any output
    /// that has gone. Returns true if anything changed.
    ///
    /// Idempotent, and cheap when nothing has: outputs come and go rarely, but
    /// this runs every frame so that a hotplug needs no separate path.
    pub fn sync_outputs(&mut self, outputs: &Vec<Output>) -> (r: bool)
        ensures
            final(self)@ == old(self)@.synced(ids_of(outputs@)),
            r == !old(self)@.in_step(ids_of(outputs@)),
    {
        let ghost ids = ids_of(outputs@);
        let ghost start = self@;
        let mut changed = false;
        let mut i: usize = 0;
        let ghost mut seen: int = 0;
        proof {
            assert(start.outputs.take(0) =~= Seq::empty());
            reveal(Seq::filter);
            assert(self@.outputs =~= start.outputs.take(0).filter(entry_live(ids))
                + start.outputs.skip(0));
            assert(self@.unplaced =~= start.unplaced + all_stacks(
                start.outputs.take(0).filter(entry_gone(ids)),
            ));
        }
        while i < self.outputs.len()
            invariant
                ids == ids_of(outputs@),
                0 <= seen <= start.outputs.len(),
                i == start.outputs.take(seen).filter(entry_live(ids)).len(),
                i <= self.outputs@.len(),
                self@.outputs == start.outputs.take(seen).filter(entry_live(ids))
                    + start.outputs.skip(seen),
                self@.unplaced == start.unplaced + all_stacks(
                    start.outputs.take(seen).filter(entry_gone(ids)),
                ),
                self@.next_id == start.next_id,
                changed == exists|j: int|
                    0 <= j < seen && !ids.contains((#[trigger] start.outputs[j]).output),
            decreases self.outputs@.len() - i,
        {
            let ghost current = self@;
            proof {
                assert(seen < start.outputs.len());
                assert(current.outputs[i as int] == start.outputs.skip(seen)[0]);
                assert(current.outputs[i as int] == start.outputs[seen]);
                seqs::lemma_filter_step(start.outputs, entry_live(ids), seen);
                seqs::lemma_filter_step(start.outputs, entry_gone(ids), seen);
            }
            if listed(outputs, self.outputs[i].output) {
                i = i + 1;
                proof {
                    assert(self@.outputs =~= start.outputs.take(seen + 1).filter(entry_live(ids))
                        + start.outputs.skip(seen + 1));
                }
            } else {
                let entry = self.outputs.remove(i);
                let mut j: usize = 0;
                let ghost held = self.unplaced@;
                while j < entry.workspaces.len()
                    invariant
                        j <= entry.workspaces@.len(),
                        self.unplaced@ == held + stacks(entry@.workspaces.take(j as int)),
                        self@.outputs == current.outputs.remove(i as int),
                        self@.next_id == start.next_id,
                    decreases entry.workspaces@.len() - j,
                {
                    append_keys(&mut self.unplaced, &entry.workspaces[j].surface_stack);
                    proof {
                        let more = entry@.workspaces.take(j as int + 1);
                        assert(more.drop_last() =~= entry@.workspaces.take(j as int));
                    }
                    j = j + 1;
                }
                changed = true;
                proof {
                    assert(entry@.workspaces.take(j as int) =~= entry@.workspaces);
                    let gone = start.outputs.take(seen).filter(entry_gone(ids));
                    assert(gone.push(start.outputs[seen]).drop_last() =~= gone);
                    assert(self@.outputs =~= start.outputs.take(seen + 1).filter(entry_live(ids))
                        + start.outputs.skip(seen + 1));
                    assert(self@.unplaced =~= start.unplaced + all_stacks(
                        start.outputs.take(seen + 1).filter(entry_gone(ids)),
                    ));
                    assert(!ids.contains(start.outputs[seen].output));
                }
            }
            proof {
                seen = seen + 1;
            }
        }
        proof {
            assert(seen == start.outputs.len()) by {
                if seen < start.outputs.len() {
                    assert(self@.outputs.len() > i);
                }
            }
            assert(start.outputs.take(seen) =~= start.outputs);
            assert(self@.outputs =~= start.outputs.filter(entry_live(ids)));
            assert(self@ =~= start.shrunk(ids));
        }
        let ghost shrunk = self@;
        let ghost shed = changed;
        let mut n: usize = 0;
        while n < outputs.len()
            invariant
                ids == ids_of(outputs@),
                n <= outputs@.len(),
                self@ == shrunk.grown_all(ids.take(n as int)),
                changed == (shed || exists|j: int|
                    0 <= j < n && shrunk.entry(#[trigger] ids[j]) is None),
            decreases outputs@.len() - n,
        {
            let ghost current = self@;
            let id = outputs[n].id;
            proof {
                assert(ids.take(n as int + 1).drop_last() =~= ids.take(n as int));
                assert(ids[n as int] == id);
                lemma_grown_entries(shrunk, ids.take(n as int), id);
            }
            if self.entry(id).is_none() {
                let next = self.allocate_id();
                self.outputs.push(OutputWorkspaces::new(id, Workspace::new(next)));
                changed = true;
                proof {
                    assert(self@.outputs =~= current.grown(id).outputs) by {
                        assert(self@.outputs.last().workspaces =~= seq![WorkspaceView::fresh(next)]);
                    }
                    assert(self@ =~= current.grown(id));
                }
            }
            proof {
                if shrunk.entry(id) is None && current.entry(id) is Some {
                    // An earlier output with this id was the new one.
                    assert(ids.take(n as int).contains(id));
                    let j = choose|j: int| 0 <= j < n && ids.take(n as int)[j] == id;
                    assert(shrunk.entry(ids[j]) is None);
                }
            }
            n = n + 1;
        }
        proof {
            assert(ids.take(n as int) =~= ids);
            lemma_in_step(start, ids);
        }
        changed
    }

    /// Hand out the next workspace id.
    fn allocate_id(&mut self) -> (r: WorkspaceId)
        ensures
            r == WorkspaceId(following(old(self)@.next_id)),
            final(self)@ == (WorkspacesView { next_id: following(old(self)@.next_id), ..old(self)@ }),
    {
        self.next_id = self.next_id.saturating_add(1);
        WorkspaceId(self.next_id)
    }

    /// Every workspace, with the output it belongs to.
    pub fn iter(&self) -> (r: Vec<(OutputId, &Workspace)>)
        ensures
            r@.map_values(|w: (OutputId, &Workspace)| (w.0, w.1@)) == all_workspaces(
                self@.outputs,
            ),
    {
        let mut r: Vec<(OutputId, &Workspace)> = Vec::new();
        let ghost f = |w: (OutputId, &Workspace)| (w.0, w.1@);
        let mut i: usize = 0;
        assert(r@.map_values(f) =~= all_workspaces(self@.outputs.take(0)));
        while i < self.outputs.len()
            invariant
                i <= self.outputs@.len(),
                f == (|w: (OutputId, &Workspace)| (w.0, w.1@)),
                r@.map_values(f) == all_workspaces(self@.outputs.take(i as int)),
            decreases self.outputs@.len() - i,
        {
            let entry = &self.outputs[i];
            let ghost before = r@.map_values(f);
            let ghost owned = |w: WorkspaceView| (entry.output, w);
            let mut j: usize = 0;
            assert(r@.map_values(f) =~= before + entry@.workspaces.take(0).map_values(owned));
            while j < entry.workspaces.len()
                invariant
                    j <= entry.workspaces@.len(),
                    f == (|w: (OutputId, &Workspace)| (w.0, w.1@)),
                    owned == (|w: WorkspaceView| (entry.output, w)),
                    r@.map_values(f) == before + entry@.workspaces.take(j as int).map_values(
                        owned,
                    ),
                decreases entry.workspaces@.len() - j,
            {
                let ghost so_far = r@.map_values(f);
                r.push((entry.output, &entry.workspaces[j]));
                assert(entry@.workspaces[j as int] == entry.workspaces@[j as int]@);
                assert(r@.map_values(f) =~= so_far.push(
                    (entry.output, entry.workspaces@[j as int]@),
                ));
                assert(entry@.workspaces.take(j as int + 1).map_values(owned)
                    =~= entry@.workspaces.take(j as int).map_values(owned).push(
                    (entry.output, entry.workspaces@[j as int]@),
                ));
                assert(r@.map_values(f) =~= before + entry@.workspaces.take(
                    j as int + 1,
                ).map_values(owned));
                j = j + 1;
            }
            assert(entry@.workspaces.take(j as int) =~= entry@.workspaces);
            assert(self@.outputs.take(i as int + 1).drop_last() =~= self@.outputs.take(i as int));
            assert(self@.outputs[i as int] == entry@);
            i = i + 1;
        }
        assert(self@.outputs.take(i as int) =~= self@.outputs);
        r
    }

    /// Every window the compositor is managing, with the output it is on.
    ///
    /// Unplaced windows are not here: they are on no output, which is exactly
    /// what makes them unplaced.
    pub fn windows(&self) -> (r: Vec<(OutputId, ClientObjectId)>)
        ensures
            r@ == all_windows(self@.outputs),
    {
        let mut r: Vec<(OutputId, ClientObjectId)> = Vec::new();
        let mut i: usize = 0;
        while i < self.outputs.len()
            invariant
                i <= self.outputs@.len(),
                r@ == all_windows(self@.outputs.take(i as int)),
            decreases self.outputs@.len() - i,
        {
            let entry = &self.outputs[i];
            let ghost before = r@;
            let mut j: usize = 0;
            assert(r@ =~= before + tagged(entry.output, stacks(entry@.workspaces.take(0))));
            while j < entry.workspaces.len()
                invariant
                    j <= entry.workspaces@.len(),
                    r@ == before + tagged(entry.output, stacks(entry@.workspaces.take(j as int))),
                decreases entry.workspaces@.len() - j,
            {
                let stack = &entry.workspaces[j].surface_stack;
                let ghost so_far = stacks(entry@.workspaces.take(j as int));
                let mut k: usize = 0;
                assert(so_far + stack@.take(0) =~= so_far);
                while k < stack.len()
                    invariant
                        k <= stack@.len(),
                        r@ == before + tagged(entry.output, so_far + stack@.take(k as int)),
                    decreases stack@.len() - k,
                {
                    r.push((entry.output, stack[k]));
                    assert(r@ =~= before + tagged(
                        entry.output,
                        so_far + stack@.take(k as int + 1),
                    ));
                    k = k + 1;
                }
                assert(stack@.take(k as int) =~= stack@);
                assert(entry@.workspaces.take(j as int + 1).drop_last()
                    =~= entry@.workspaces.take(j as int));
                j = j + 1;
            }
            assert(entry@.workspaces.take(j as int) =~= entry@.workspaces);
            assert(self@.outputs.take(i as int + 1).drop_last() =~= self@.outputs.take(i as int));
            i = i + 1;
        }
        assert(self@.outputs.take(i as int) =~= self@.outputs);
        r
    }

    /// The workspaces of one output.
    pub fn get(&self, output: OutputId) -> (r: Option<&OutputWorkspaces>)
        ensures
            r is Some == self@.entry(output) is Some,
            r matches Some(e) ==> e@ == self@.outputs[self@.entry(output).unwrap()],
    {
        match self.entry(output) {
            Some(i) => Some(&self.outputs[i]),
            None => None,
        }
    }

    /// The workspace on screen on one output.
    pub fn active(&self, output: OutputId) -> (r: Option<&Workspace>)
        ensures
            r is Some == self@.active(output) is Some,
            r matches Some(w) ==> Some(w@) == self@.active(output),
    {
        match self.get(output) {
            Some(e) => e.active(),
            None => None,
        }
    }

    /// The workspace on screen on one output, for modification.
    pub fn active_mut(&mut self, output: OutputId) -> (r: Option<&mut Workspace>)
        ensures
            r is Some == old(self)@.active(output) is Some,
            r matches Some(w) ==> Some(w@) == old(self)@.active(output),
            r matches Some(w) ==> final(self)@ == old(self)@.with_active(output, final(w)@),
            r is None ==> final(self)@ == old(self)@,
    {
        match self.entry(output) {
            Some(i) => {
                let ghost start = *self;
                proof {
                    assert forall|s: Seq<OutputWorkspaces>, e: OutputWorkspaces|
                        #![trigger s.update(i as int, e)]
                        i < s.len() implies s.update(i as int, e).map_values(
                        |e: OutputWorkspaces| e@,
                    ) == s.map_values(|e: OutputWorkspaces| e@).update(i as int, e@) by {
                        assert(s.update(i as int, e).map_values(|e: OutputWorkspaces| e@)
                            =~= s.map_values(|e: OutputWorkspaces| e@).update(i as int, e@));
                    }
                    assert(start.outputs@.update(i as int, start.outputs@[i as int])
                        =~= start.outputs@);
                }
                self.outputs[i].active_mut()
            },
            None => None,
        }
    }

    /// The windows drawn on one output, bottom to top. Empty for an output
    /// that has no workspaces, which is one the compositor has not seen.
    pub fn visible_stack(&self, output: OutputId) -> (r: Vec<ClientObjectId>)
        ensures
            r@ == self@.visible_stack(output),
    {
        match self.active(output) {
            Some(workspace) => {
                copy_keys(&workspace.surface_stack)
            },
            None => Vec::new(),
        }
    }

    /// Which output and workspace a window is in.
    pub fn find(&self, key: ClientObjectId) -> (r: Option<(OutputId, WorkspaceId)>)
        ensures
            r == self@.find(key),
    {
        let mut i: usize = 0;
        while i < self.outputs.len()
            invariant
                i <= self.outputs@.len(),
                forall|j: int|
                    0 <= j < i ==> !entry_holding(key)(#[trigger] self@.outputs[j]),
            decreases self.outputs@.len() - i,
        {
            match self.outputs[i].slot_of(key) {
                Some(j) => {
                    proof {
                        seqs::lemma_first(self@.outputs, entry_holding(key), i as int);
                        seqs::lemma_first(
                            self@.outputs[i as int].workspaces,
                            workspace_holding(key),
                            j as int,
                        );
                    }
                    return Some((self.outputs[i].output, self.outputs[i].workspaces[j].id));
                },
                None => {},
            }
            i = i + 1;
        }
        proof {
            seqs::lemma_first_none(self@.outputs, entry_holding(key));
        }
        None
    }

    /// Which output a window is on, if it is on one.
    pub fn output_of(&self, key: ClientObjectId) -> (r: Option<OutputId>)
        ensures
            r == self@.output_of(key),
    {
        match self.find(key) {
            Some((output, _)) => Some(output),
            None => None,
        }
    }

    /// Whether a window is in a workspace that is currently on screen.
    pub fn is_visible(&self, key: ClientObjectId) -> (r: bool)
        ensures
            r == self@.is_visible(key),
    {
        let mut i: usize = 0;
        while i < self.outputs.len()
            invariant
                i <= self.outputs@.len(),
                forall|j: int|
                    0 <= j < i ==> !((#[trigger] self@.outputs[j]).wf()
                        && self@.outputs[j].shown().stack.contains(key)),
            decreases self.outputs@.len() - i,
        {
            if let Some(w) = self.outputs[i].active() {
                if stack_contains(&w.surface_stack, key) {
                    assert(self@.outputs[i as int].wf());
                    return true;
                }
            }
            i = i + 1;
        }
        false
    }

    /// Put a window on top of the workspace showing on an output, taking it
    /// out of wherever it was before. Returns false if that output has no
    /// workspaces, in which case the window has not been moved.
    pub fn place(&mut self, output: OutputId, key: ClientObjectId) -> (r: bool)
        ensures
            final(self)@ == old(self)@.placed(output, key),
            r == old(self)@.active(output) is Some,
    {
        if self.active(output).is_none() {
            return false;
        }
        let ghost start = self@;
        self.remove(key);
        proof {
            lemma_removed_entry(start, output, key);
        }
        if let Some(workspace) = self.active_mut(output) {
            workspace.raise(key);
        }
        proof {
            let w = start.active(output).unwrap();
            lemma_without_again(w.stack, key);
        }
        true
    }

    /// Raise a window to the top of its own workspace. Does nothing for a
    /// window that is in none.
    pub fn raise(&mut self, key: ClientObjectId)
        ensures
            final(self)@ == old(self)@.raised(key),
    {
        let mut i: usize = 0;
        while i < self.outputs.len()
            invariant
                i <= self.outputs@.len(),
                *self == *old(self),
                forall|j: int|
                    0 <= j < i ==> !entry_holding(key)(#[trigger] self@.outputs[j]),
            decreases self.outputs@.len() - i,
        {
            match self.outputs[i].slot_of(key) {
                Some(j) => {
                    proof {
                        seqs::lemma_first(self@.outputs, entry_holding(key), i as int);
                        seqs::lemma_first(
                            self@.outputs[i as int].workspaces,
                            workspace_holding(key),
                            j as int,
                        );
                    }
                    self.outputs[i].workspaces[j].raise(key);
                    assert(self@.outputs[i as int].workspaces =~= old(
                        self,
                    )@.outputs[i as int].raised(key).workspaces);
                    assert(self@.outputs =~= old(self)@.raised(key).outputs);
                    return ;
                },
                None => {},
            }
            i = i + 1;
        }
        proof {
            seqs::lemma_first_none(self@.outputs, entry_holding(key));
        }
    }

    /// Take a window out of whatever workspace holds it.
    pub fn remove(&mut self, key: ClientObjectId)
        ensures
            final(self)@ == old(self)@.removed(key),
    {
        let mut i: usize = 0;
        let ghost before = self.outputs@;
        while i < self.outputs.len()
            invariant
                i <= self.outputs@.len(),
                self.outputs@.len() == before.len(),
                self.unplaced@ == old(self).unplaced@,
                self.next_id == old(self).next_id,
                forall|j: int| 0 <= j < i ==> (#[trigger] self.outputs@[j])@ == before[j]@.without(key),
                forall|j: int| i <= j < before.len() ==> #[trigger] self.outputs@[j] == before[j],
            decreases self.outputs@.len() - i,
        {
            self.outputs[i].remove(key);
            i = i + 1;
        }
        retain_other(&mut self.unplaced, key);
        assert(self@.outputs =~= old(self)@.removed(key).outputs);
    }

    /// Take out every window belonging to a client that has gone.
    pub fn remove_client(&mut self, client_id: u32)
        ensures
            final(self)@ == old(self)@.client_removed(client_id),
    {
        let mut i: usize = 0;
        let ghost before = self.outputs@;
        while i < self.outputs.len()
            invariant
                i <= self.outputs@.len(),
                self.outputs@.len() == before.len(),
                self.unplaced@ == old(self).unplaced@,
                self.next_id == old(self).next_id,
                forall|j: int|
                    0 <= j < i ==> (#[trigger] self.outputs@[j])@ == before[j]@.without_client(
                        client_id,
                    ),
                forall|j: int| i <= j < before.len() ==> #[trigger] self.outputs@[j] == before[j],
            decreases self.outputs@.len() - i,
        {
            self.outputs[i].remove_client(client_id);
            i = i + 1;
        }
        retain_other_clients(&mut self.unplaced, client_id);
        assert(self@.outputs =~= old(self)@.client_removed(client_id).outputs);
    }

    /// Hold a window aside until there is an output to put it on.
    pub fn hold_unplaced(&mut self, key: ClientObjectId)
        ensures
            final(self)@ == old(self)@.held(key),
    {
        if !stack_contains(&self.unplaced, key) {
            self.unplaced.push(key);
        }
    }

    /// Take the windows waiting for somewhere to live, leaving none behind.
    pub fn take_unplaced(&mut self) -> (r: Vec<ClientObjectId>)
        ensures
            r@ == old(self)@.unplaced,
            final(self)@ == old(self)@.unheld(),
    {
        let mut r: Vec<ClientObjectId> = Vec::new();
        std::mem::swap(&mut r, &mut self.unplaced);
        assert(self@.unplaced =~= Seq::empty());
        r
    }
}

/// Growing for some outputs gives exactly those, and the ones there were, an
/// entry.
proof fn lemma_grown_entries(w: WorkspacesView, ids: Seq<OutputId>, id: OutputId)
    ensures
        w.grown_all(ids).entry(id) is Some <==> w.entry(id) is Some || ids.contains(id),
        w.grown_all(ids).unplaced == w.unplaced,
    decreases ids.len(),
{
    if ids.len() > 0 {
        let rest = ids.drop_last();
        let g = w.grown_all(rest);
        lemma_grown_entries(w, rest, id);
        lemma_grown_entries(w, rest, ids.last());
        let g2 = g.grown(ids.last());
        if g.entry(ids.last()) is None {
            seqs::lemma_first_holds(g.outputs, entry_for(id));
            seqs::lemma_first_holds(g2.outputs, entry_for(id));
            if let Some(i) = g.entry(id) {
                assert(g2.outputs[i] == g.outputs[i]);
                assert(entry_for(id)(g2.outputs[i]));
            }
            if let Some(i) = g2.entry(id) {
                if i < g.outputs.len() {
                    assert(g2.outputs[i] == g.outputs[i]);
                    assert(entry_for(id)(g.outputs[i]));
                } else {
                    assert(g2.outputs[i].output == ids.last());
                }
            }
            if id == ids.last() {
                assert(entry_for(id)(g2.outputs[g.outputs.len() as int]));
            }
        }
        assert(ids.contains(id) <==> rest.contains(id) || ids.last() == id) by {
            if ids.contains(id) {
                let i = choose|i: int| 0 <= i < ids.len() && ids[i] == id;
                if i < rest.len() {
                    assert(rest[i] == id);
                }
            }
            if rest.contains(id) {
                let i = choose|i: int| 0 <= i < rest.len() && rest[i] == id;
                assert(ids[i] == id);
            }
            assert(ids[ids.len() - 1] == ids.last());
        }
    }
}

/// Dropping the outputs that have gone drops no other.
proof fn lemma_shrunk_entries(w: WorkspacesView, ids: Seq<OutputId>, id: OutputId)
    requires
        ids.contains(id),
    ensures
        w.shrunk(ids).entry(id) is Some <==> w.entry(id) is Some,
{
    let s = w.shrunk(ids);
    seqs::lemma_first_holds(w.outputs, entry_for(id));
    seqs::lemma_first_holds(s.outputs, entry_for(id));
    if let Some(i) = w.entry(id) {
        let e = w.outputs[i];
        assert(w.outputs.contains(e));
        seqs::lemma_filter_contains(w.outputs, entry_live(ids), e);
        let j = choose|j: int| 0 <= j < s.outputs.len() && s.outputs[j] == e;
        assert(entry_for(id)(s.outputs[j]));
    }
    if let Some(i) = s.entry(id) {
        let e = s.outputs[i];
        assert(s.outputs.contains(e));
        seqs::lemma_filter_contains(w.outputs, entry_live(ids), e);
        let j = choose|j: int| 0 <= j < w.outputs.len() && w.outputs[j] == e;
        assert(entry_for(id)(w.outputs[j]));
    }
}

/// Nothing was dropped and nothing is missing exactly when they agreed.
proof fn lemma_in_step(w: WorkspacesView, ids: Seq<OutputId>)
    ensures
        w.in_step(ids) <==> !(exists|j: int|
            0 <= j < w.outputs.len() && !ids.contains((#[trigger] w.outputs[j]).output)) && !(exists|
            j: int,
        | 0 <= j < ids.len() && w.shrunk(ids).entry(#[trigger] ids[j]) is None),
{
    assert forall|j: int| 0 <= j < ids.len() implies (w.shrunk(ids).entry(#[trigger] ids[j])
        is Some <==> w.entry(ids[j]) is Some) by {
        lemma_shrunk_entries(w, ids, ids[j]);
    }
    if w.in_step(ids) {
        assert forall|j: int| 0 <= j < ids.len() implies w.shrunk(ids).entry(
            #[trigger] ids[j],
        ) is Some by {
            assert(w.entry(ids[j]) is Some);
        }
    }
    if !(exists|j: int| 0 <= j < ids.len() && w.shrunk(ids).entry(#[trigger] ids[j]) is None) {
        assert forall|j: int| 0 <= j < ids.len() implies w.entry(#[trigger] ids[j]) is Some by {
            assert(w.shrunk(ids).entry(ids[j]) is Some);
        }
    }
}

/// Taking a window out moves no output.
proof fn lemma_removed_entry(w: WorkspacesView, output: OutputId, key: ClientObjectId)
    ensures
        w.removed(key).entry(output) == w.entry(output),
        w.active(output) matches Some(a) ==> w.removed(key).active(output) == Some(a.without(key)),
{
    let after = w.removed(key);
    seqs::lemma_first_holds(w.outputs, entry_for(output));
    match w.entry(output) {
        Some(i) => {
            assert forall|j: int| 0 <= j < i implies !entry_for(output)(
                #[trigger] after.outputs[j],
            ) by {
                assert(!entry_for(output)(w.outputs[j]));
            }
            seqs::lemma_first(after.outputs, entry_for(output), i);
        },
        None => {
            assert forall|j: int| 0 <= j < after.outputs.len() implies !entry_for(output)(
                #[trigger] after.outputs[j],
            ) by {
                assert(!entry_for(output)(w.outputs[j]));
            }
            seqs::lemma_first_none(after.outputs, entry_for(output));
        },
    }
}

/// A window that has been taken out cannot be taken out again.
proof fn lemma_without_again(s: Seq<ClientObjectId>, key: ClientObjectId)
    ensures
        stack_without(stack_without(s, key), key) == stack_without(s, key),
{
    seqs::lemma_filter_passes(s, other_than(key));
    seqs::lemma_filter_all(stack_without(s, key), other_than(key));
}

/// How many times a window is in a stack.
pub open spec fn times_in(s: Seq<ClientObjectId>, key: ClientObjectId) -> nat
    decreases s.len(),
{
    if s.len() == 0 {
        0
    } else {
        times_in(s.drop_last(), key) + if s.last() == key {
            1nat
        } else {
            0
        }
    }
}

impl WorkspacesView {
    /// How many times a window is anywhere at all.
    pub open spec fn times(self, key: ClientObjectId) -> nat {
        times_in(all_stacks(self.outputs), key) + times_in(self.unplaced, key)
    }

    /// No window is in two places.
    pub open spec fn once(self) -> bool {
        forall|key: ClientObjectId| #[trigger] self.times(key) <= 1
    }
}

/// How many times a window is in two stacks is how many times it is in either.
pub proof fn lemma_times_add(a: Seq<ClientObjectId>, b: Seq<ClientObjectId>, key: ClientObjectId)
    ensures
        times_in(a + b, key) == times_in(a, key) + times_in(b, key),
    decreases b.len(),
{
    if b.len() == 0 {
        assert(a + b =~= a);
    } else {
        assert((a + b).drop_last() =~= a + b.drop_last());
        lemma_times_add(a, b.drop_last(), key);
    }
}

proof fn lemma_times_filter(
    s: Seq<ClientObjectId>,
    p: spec_fn(ClientObjectId) -> bool,
    key: ClientObjectId,
)
    ensures
        times_in(s.filter(p), key) == if p(key) {
            times_in(s, key)
        } else {
            0
        },
    decreases s.len(),
{
    reveal(Seq::filter);
    if s.len() > 0 {
        lemma_times_filter(s.drop_last(), p, key);
        let f = s.drop_last().filter(p);
        assert(f.push(s.last()).drop_last() =~= f);
    }
}

proof fn lemma_times_contains(s: Seq<ClientObjectId>, key: ClientObjectId)
    ensures
        times_in(s, key) > 0 <==> s.contains(key),
    decreases s.len(),
{
    if s.len() > 0 {
        lemma_times_contains(s.drop_last(), key);
        if s.contains(key) && s.last() != key {
            let i = choose|i: int| 0 <= i < s.len() && s[i] == key;
            assert(s.drop_last()[i] == key);
        }
        if s.drop_last().contains(key) {
            let i = choose|i: int| 0 <= i < s.drop_last().len() && s.drop_last()[i] == key;
            assert(s[i] == key);
        }
        assert(s[s.len() - 1] == s.last());
    }
}

proof fn lemma_stacks_filter(
    a: Seq<WorkspaceView>,
    b: Seq<WorkspaceView>,
    p: spec_fn(ClientObjectId) -> bool,
    key: ClientObjectId,
)
    requires
        a.len() == b.len(),
        forall|i: int| 0 <= i < a.len() ==> (#[trigger] b[i]).stack == a[i].stack.filter(p),
    ensures
        times_in(stacks(b), key) == if p(key) {
            times_in(stacks(a), key)
        } else {
            0
        },
    decreases a.len(),
{
    if a.len() > 0 {
        assert forall|i: int| 0 <= i < a.drop_last().len() implies (
        #[trigger] b.drop_last()[i]).stack == a.drop_last()[i].stack.filter(p) by {
            assert(b[i].stack == a[i].stack.filter(p));
        }
        lemma_stacks_filter(a.drop_last(), b.drop_last(), p, key);
        assert(b[b.len() - 1].stack == a[a.len() - 1].stack.filter(p));
        lemma_times_filter(a.last().stack, p, key);
        lemma_times_add(stacks(a.drop_last()), a.last().stack, key);
        lemma_times_add(stacks(b.drop_last()), b.last().stack, key);
    }
}

proof fn lemma_all_stacks_filter(
    a: Seq<OutputWorkspacesView>,
    b: Seq<OutputWorkspacesView>,
    p: spec_fn(ClientObjectId) -> bool,
    key: ClientObjectId,
)
    requires
        a.len() == b.len(),
        forall|i: int|
            0 <= i < a.len() ==> (#[trigger] b[i]).workspaces.len() == a[i].workspaces.len(),
        forall|i: int, j: int|
            0 <= i < a.len() && 0 <= j < a[i].workspaces.len() ==> (
            #[trigger] b[i].workspaces[j]).stack == a[i].workspaces[j].stack.filter(p),
    ensures
        times_in(all_stacks(b), key) == if p(key) {
            times_in(all_stacks(a), key)
        } else {
            0
        },
    decreases a.len(),
{
    if a.len() > 0 {
        let (a2, b2) = (a.drop_last(), b.drop_last());
        assert forall|i: int| 0 <= i < a2.len() implies (#[trigger] b2[i]).workspaces.len()
            == a2[i].workspaces.len() by {
            assert(b[i].workspaces.len() == a[i].workspaces.len());
        }
        assert forall|i: int, j: int| 0 <= i < a2.len() && 0 <= j < a2[i].workspaces.len() implies (
        #[trigger] b2[i].workspaces[j]).stack == a2[i].workspaces[j].stack.filter(p) by {
            assert(b[i].workspaces[j].stack == a[i].workspaces[j].stack.filter(p));
        }
        lemma_all_stacks_filter(a2, b2, p, key);
        let n = a.len() - 1;
        assert(b[n].workspaces.len() == a[n].workspaces.len());
        assert forall|j: int| 0 <= j < a[n].workspaces.len() implies (
        #[trigger] b[n].workspaces[j]).stack == a[n].workspaces[j].stack.filter(p) by {
        }
        lemma_stacks_filter(a[n].workspaces, b[n].workspaces, p, key);
        lemma_times_add(all_stacks(a2), stacks(a[n].workspaces), key);
        lemma_times_add(all_stacks(b2), stacks(b[n].workspaces), key);
    }
}

proof fn lemma_stacks_update(ws: Seq<WorkspaceView>, j: int, w: WorkspaceView, key: ClientObjectId)
    requires
        0 <= j < ws.len(),
    ensures
        times_in(stacks(ws.update(j, w)), key) + times_in(ws[j].stack, key) == times_in(
            stacks(ws),
            key,
        ) + times_in(w.stack, key),
    decreases ws.len(),
{
    let after = ws.update(j, w);
    lemma_times_add(stacks(ws.drop_last()), ws.last().stack, key);
    lemma_times_add(stacks(after.drop_last()), after.last().stack, key);
    if j < ws.len() - 1 {
        lemma_stacks_update(ws.drop_last(), j, w, key);
        assert(after.drop_last() =~= ws.drop_last().update(j, w));
    } else {
        assert(after.drop_last() =~= ws.drop_last());
    }
}

proof fn lemma_all_stacks_update(
    es: Seq<OutputWorkspacesView>,
    i: int,
    e: OutputWorkspacesView,
    key: ClientObjectId,
)
    requires
        0 <= i < es.len(),
    ensures
        times_in(all_stacks(es.update(i, e)), key) + times_in(stacks(es[i].workspaces), key)
            == times_in(all_stacks(es), key) + times_in(stacks(e.workspaces), key),
    decreases es.len(),
{
    let after = es.update(i, e);
    lemma_times_add(all_stacks(es.drop_last()), stacks(es.last().workspaces), key);
    lemma_times_add(all_stacks(after.drop_last()), stacks(after.last().workspaces), key);
    if i < es.len() - 1 {
        lemma_all_stacks_update(es.drop_last(), i, e, key);
        assert(after.drop_last() =~= es.drop_last().update(i, e));
    } else {
        assert(after.drop_last() =~= es.drop_last());
    }
}

proof fn lemma_stack_within(es: Seq<OutputWorkspacesView>, i: int, j: int, key: ClientObjectId)
    requires
        0 <= i < es.len(),
        0 <= j < es[i].workspaces.len(),
    ensures
        times_in(es[i].workspaces[j].stack, key) <= times_in(all_stacks(es), key),
{
    let bare = WorkspaceView { stack: Seq::empty(), ..es[i].workspaces[j] };
    lemma_stacks_update(es[i].workspaces, j, bare, key);
    let e = OutputWorkspacesView { workspaces: es[i].workspaces.update(j, bare), ..es[i] };
    lemma_all_stacks_update(es, i, e, key);
}

/// A window that has been taken out is nowhere, and no other has moved.
pub proof fn law_removed(w: WorkspacesView, key: ClientObjectId, other: ClientObjectId)
    ensures
        w.removed(key).times(other) == if other == key {
            0
        } else {
            w.times(other)
        },
        w.once() ==> w.removed(key).once(),
{
    assert forall|k: ClientObjectId| #[trigger] w.removed(key).times(k) == (if k == key {
        0
    } else {
        w.times(k)
    }) by {
        lemma_all_stacks_filter(w.outputs, w.removed(key).outputs, other_than(key), k);
        lemma_times_filter(w.unplaced, other_than(key), k);
    }
    if w.once() {
        assert forall|k: ClientObjectId| #[trigger] w.removed(key).times(k) <= 1 by {
            assert(w.times(k) <= 1);
        }
    }
}

/// A client that has gone leaves no window behind, and takes no other's along.
pub proof fn law_client_removed(w: WorkspacesView, client_id: u32, key: ClientObjectId)
    ensures
        w.client_removed(client_id).times(key) == if key.0 == client_id {
            0
        } else {
            w.times(key)
        },
        w.once() ==> w.client_removed(client_id).once(),
{
    assert forall|k: ClientObjectId| #[trigger] w.client_removed(client_id).times(k) == (if k.0
        == client_id {
        0
    } else {
        w.times(k)
    }) by {
        lemma_all_stacks_filter(
            w.outputs,
            w.client_removed(client_id).outputs,
            of_others(client_id),
            k,
        );
        lemma_times_filter(w.unplaced, of_others(client_id), k);
    }
    if w.once() {
        assert forall|k: ClientObjectId| #[trigger] w.client_removed(client_id).times(k) <= 1 by {
            assert(w.times(k) <= 1);
        }
    }
}

/// A window that has been placed on an output is there once and nowhere else,
/// on top of what shows there; no other window has moved.
pub proof fn law_placed(
    w: WorkspacesView,
    output: OutputId,
    key: ClientObjectId,
    other: ClientObjectId,
)
    requires
        w.active(output) is Some,
    ensures
        w.placed(output, key).times(other) == if other == key {
            1
        } else {
            w.times(other)
        },
        top_of(w.placed(output, key).visible_stack(output)) == Some(key),
        w.once() ==> w.placed(output, key).once(),
{
    let r = w.removed(key);
    let a = w.active(output).unwrap();
    lemma_removed_entry(w, output, key);
    seqs::lemma_first_holds(r.outputs, entry_for(output));
    let i = r.entry(output).unwrap();
    let e = r.outputs[i];
    let p = w.placed(output, key);
    lemma_without_again(a.stack, key);
    assert forall|k: ClientObjectId| #[trigger] p.times(k) == (if k == key {
        1
    } else {
        w.times(k)
    }) by {
        law_removed(w, key, k);
        lemma_stacks_update(e.workspaces, e.active, a.raised(key), k);
        lemma_all_stacks_update(r.outputs, i, e.with_shown(a.raised(key)), k);
        lemma_times_filter(a.stack, other_than(key), k);
        assert(a.raised(key).stack.drop_last() =~= stack_without(a.stack, key));
        assert(e.shown().stack == stack_without(a.stack, key));
    }
    assert forall|j: int| 0 <= j < i implies !entry_for(output)(#[trigger] p.outputs[j]) by {
        assert(!entry_for(output)(r.outputs[j]));
    }
    seqs::lemma_first(p.outputs, entry_for(output), i);
    if w.once() {
        assert forall|k: ClientObjectId| #[trigger] p.times(k) <= 1 by {
            assert(w.times(k) <= 1);
        }
    }
}

/// Raising a window that is somewhere moves it in and out of nothing.
pub proof fn law_raised(w: WorkspacesView, key: ClientObjectId, other: ClientObjectId)
    requires
        w.once(),
    ensures
        w.raised(key).times(other) == w.times(other),
        w.raised(key).output_of(key) == w.output_of(key),
        w.raised(key).once(),
{
    seqs::lemma_first_holds(w.outputs, entry_holding(key));
    let r = w.raised(key);
    match seqs::first(w.outputs, entry_holding(key)) {
        Some(i) => {
            let e = w.outputs[i];
            seqs::lemma_first_holds(e.workspaces, workspace_holding(key));
            let j0 = choose|j: int|
                0 <= j < e.workspaces.len() && (#[trigger] e.workspaces[j]).stack.contains(key);
            assert(workspace_holding(key)(e.workspaces[j0]));
            let j = seqs::first(e.workspaces, workspace_holding(key)).unwrap();
            let ws = e.workspaces[j];
            assert forall|k: ClientObjectId| #[trigger] r.times(k) == w.times(k) by {
                assert(w.times(k) <= 1);
                assert(w.times(key) <= 1);
                lemma_stacks_update(e.workspaces, j, ws.raised(key), k);
                lemma_all_stacks_update(w.outputs, i, e.raised(key), k);
                lemma_times_filter(ws.stack, other_than(key), k);
                assert(ws.raised(key).stack.drop_last() =~= stack_without(ws.stack, key));
                lemma_times_contains(ws.stack, key);
                lemma_stack_within(w.outputs, i, j, key);
            }
            let e2 = e.raised(key);
            assert(e2.workspaces[j].stack.last() == key);
            assert(e2.workspaces[j].stack.contains(key));
            assert(e2.holds(key));
            assert forall|n: int| 0 <= n < i implies !entry_holding(key)(
                #[trigger] r.outputs[n],
            ) by {
                assert(!entry_holding(key)(w.outputs[n]));
            }
            seqs::lemma_first(r.outputs, entry_holding(key), i);
            assert forall|n: int| 0 <= n < j implies !workspace_holding(key)(
                #[trigger] e2.workspaces[n],
            ) by {
                assert(!workspace_holding(key)(e.workspaces[n]));
            }
            seqs::lemma_first(e2.workspaces, workspace_holding(key), j);
        },
        None => {},
    }
    assert forall|k: ClientObjectId| #[trigger] r.times(k) <= 1 by {
        assert(w.times(k) <= 1);
    }
}

proof fn lemma_times_split(
    es: Seq<OutputWorkspacesView>,
    ids: Seq<OutputId>,
    key: ClientObjectId,
)
    ensures
        times_in(all_stacks(es.filter(entry_live(ids))), key) + times_in(
            all_stacks(es.filter(entry_gone(ids))),
            key,
        ) == times_in(all_stacks(es), key),
    decreases es.len(),
{
    reveal(Seq::filter);
    if es.len() > 0 {
        let rest = es.drop_last();
        lemma_times_split(rest, ids, key);
        let live = rest.filter(entry_live(ids));
        let gone = rest.filter(entry_gone(ids));
        assert(live.push(es.last()).drop_last() =~= live);
        assert(gone.push(es.last()).drop_last() =~= gone);
        lemma_times_add(all_stacks(rest), stacks(es.last().workspaces), key);
        lemma_times_add(all_stacks(live), stacks(es.last().workspaces), key);
        lemma_times_add(all_stacks(gone), stacks(es.last().workspaces), key);
    }
}

proof fn lemma_grown_times(w: WorkspacesView, ids: Seq<OutputId>, key: ClientObjectId)
    ensures
        w.grown_all(ids).times(key) == w.times(key),
        w.wf() ==> w.grown_all(ids).wf(),
    decreases ids.len(),
{
    if ids.len() > 0 {
        let g = w.grown_all(ids.drop_last());
        lemma_grown_times(w, ids.drop_last(), key);
        let fresh = OutputWorkspacesView::fresh(ids.last(), WorkspaceId(following(g.next_id)));
        assert(g.outputs.push(fresh).drop_last() =~= g.outputs);
        assert(fresh.workspaces.drop_last() =~= Seq::empty());
        reveal_with_fuel(stacks, 2);
        assert(stacks(fresh.workspaces) =~= Seq::empty());
        assert(all_stacks(g.outputs) + stacks(fresh.workspaces) =~= all_stacks(g.outputs));
    }
}

/// Agreeing with the outputs loses no window and duplicates none: the windows
/// of an output that has gone are held aside.
pub proof fn law_sync_keeps_windows(w: WorkspacesView, ids: Seq<OutputId>, key: ClientObjectId)
    ensures
        w.synced(ids).times(key) == w.times(key),
        w.once() ==> w.synced(ids).once(),
{
    assert forall|k: ClientObjectId| #[trigger] w.synced(ids).times(k) == w.times(k) by {
        lemma_times_split(w.outputs, ids, k);
        let gone = all_stacks(w.outputs.filter(entry_gone(ids)));
        lemma_times_add(w.unplaced, gone, k);
        lemma_grown_times(w.shrunk(ids), ids, k);
    }
    if w.once() {
        assert forall|k: ClientObjectId| #[trigger] w.synced(ids).times(k) <= 1 by {
            assert(w.times(k) <= 1);
        }
    }
}

/// Once they agree with the outputs, every output has a workspace on screen
/// and none is kept for an output that has gone.
pub proof fn law_every_output_has_a_workspace(w: WorkspacesView, ids: Seq<OutputId>)
    requires
        w.wf(),
    ensures
        w.synced(ids).wf(),
        w.synced(ids).in_step(ids),
        forall|i: int| 0 <= i < ids.len() ==> w.synced(ids).active(#[trigger] ids[i]) is Some,
{
    let s = w.shrunk(ids);
    let g = w.synced(ids);
    seqs::lemma_filter_passes(w.outputs, entry_live(ids));
    assert forall|i: int| 0 <= i < s.outputs.len() implies (#[trigger] s.outputs[i]).wf()
        && ids.contains(s.outputs[i].output) by {
        assert(w.outputs.contains(s.outputs[i]));
        let j = choose|j: int| 0 <= j < w.outputs.len() && w.outputs[j] == s.outputs[i];
        assert(w.outputs[j].wf());
        assert(entry_live(ids)(s.outputs[i]));
    }
    lemma_grown_times(s, ids, (0, 0));
    lemma_grown_from(s, ids, ids);
    assert forall|i: int| 0 <= i < ids.len() implies g.active(#[trigger] ids[i]) is Some && g.entry(
        ids[i],
    ) is Some by {
        lemma_grown_entries(s, ids, ids[i]);
        assert(ids.contains(ids[i]));
        seqs::lemma_first_holds(g.outputs, entry_for(ids[i]));
        assert(g.outputs[g.entry(ids[i]).unwrap()].wf());
    }
}

proof fn lemma_grown_from(w: WorkspacesView, some: Seq<OutputId>, ids: Seq<OutputId>)
    requires
        forall|i: int| 0 <= i < some.len() ==> ids.contains(#[trigger] some[i]),
        forall|i: int|
            0 <= i < w.outputs.len() ==> ids.contains((#[trigger] w.outputs[i]).output),
    ensures
        forall|i: int|
            0 <= i < w.grown_all(some).outputs.len() ==> ids.contains(
                (#[trigger] w.grown_all(some).outputs[i]).output,
            ),
    decreases some.len(),
{
    if some.len() > 0 {
        assert forall|i: int| 0 <= i < some.drop_last().len() implies ids.contains(
            #[trigger] some.drop_last()[i],
        ) by {
            assert(ids.contains(some[i]));
        }
        lemma_grown_from(w, some.drop_last(), ids);
        assert(ids.contains(some[some.len() - 1]));
        let before = w.grown_all(some.drop_last());
        let after = w.grown_all(some);
        assert forall|i: int| 0 <= i < after.outputs.len() implies ids.contains(
            (#[trigger] after.outputs[i]).output,
        ) by {
            if i < before.outputs.len() {
                assert(after.outputs[i] == before.outputs[i]);
            }
        }
    }
}

/// Where they agree already, agreeing again changes nothing.
pub proof fn law_sync_is_idempotent(w: WorkspacesView, ids: Seq<OutputId>)
    requires
        w.in_step(ids),
    ensures
        w.synced(ids) == w,
{
    assert forall|i: int| 0 <= i < w.outputs.len() implies entry_live(ids)(
        #[trigger] w.outputs[i],
    ) && !entry_gone(ids)(w.outputs[i]) by {
        assert(ids.contains(w.outputs[i].output));
    }
    seqs::lemma_filter_all(w.outputs, entry_live(ids));
    seqs::lemma_filter_none(w.outputs, entry_gone(ids));
    assert(w.unplaced + Seq::<ClientObjectId>::empty() =~= w.unplaced);
    assert(w.shrunk(ids) =~= w);
    lemma_grown_nothing(w, ids);
}

proof fn lemma_grown_nothing(w: WorkspacesView, ids: Seq<OutputId>)
    requires
        forall|i: int| 0 <= i < ids.len() ==> w.entry(#[trigger] ids[i]) is Some,
    ensures
        w.grown_all(ids) == w,
    decreases ids.len(),
{
    if ids.len() > 0 {
        assert forall|i: int| 0 <= i < ids.drop_last().len() implies w.entry(
            #[trigger] ids.drop_last()[i],
        ) is Some by {
            assert(w.entry(ids[i]) is Some);
        }
        lemma_grown_nothing(w, ids.drop_last());
        assert(w.entry(ids[ids.len() - 1]) is Some);
    }
}

/// Whatever position windows are given next, the windows themselves stay where
/// they are.
pub proof fn lemma_cascading_moves_nothing(
    w: WorkspacesView,
    output: OutputId,
    limit_x: i32,
    limit_y: i32,
)
    requires
        w.wf(),
        w.active(output) is Some,
    ensures
        w.with_active(output, w.active(output).unwrap().cascaded(limit_x, limit_y)).wf(),
        w.with_active(output, w.active(output).unwrap().cascaded(limit_x, limit_y)).active(
            output,
        ) is Some,
        w.once() ==> w.with_active(
            output,
            w.active(output).unwrap().cascaded(limit_x, limit_y),
        ).once(),
{
    let a = w.active(output).unwrap();
    let c = a.cascaded(limit_x, limit_y);
    let p = w.with_active(output, c);
    seqs::lemma_first_holds(w.outputs, entry_for(output));
    let i = w.entry(output).unwrap();
    let e = w.outputs[i];
    assert forall|k: ClientObjectId| #[trigger] p.times(k) == w.times(k) by {
        lemma_stacks_update(e.workspaces, e.active, c, k);
        lemma_all_stacks_update(w.outputs, i, e.with_shown(c), k);
    }
    assert forall|j: int| 0 <= j < i implies !entry_for(output)(#[trigger] p.outputs[j]) by {
        assert(!entry_for(output)(w.outputs[j]));
    }
    seqs::lemma_first(p.outputs, entry_for(output), i);
    assert forall|j: int| 0 <= j < p.outputs.len() implies (#[trigger] p.outputs[j]).wf() by {
        assert(w.outputs[j].wf());
    }
    if w.once() {
        assert forall|k: ClientObjectId| #[trigger] p.times(k) <= 1 by {
            assert(w.times(k) <= 1);
        }
    }
}

/// What is put on screen on an output is what is on screen there.
pub proof fn lemma_active_replaced(w: WorkspacesView, output: OutputId, shown: WorkspaceView)
    requires
        w.active(output) is Some,
    ensures
        w.with_active(output, shown).active(output) == Some(shown),
{
    let p = w.with_active(output, shown);
    seqs::lemma_first_holds(w.outputs, entry_for(output));
    let i = w.entry(output).unwrap();
    assert forall|j: int| 0 <= j < i implies !entry_for(output)(#[trigger] p.outputs[j]) by {
        assert(!entry_for(output)(w.outputs[j]));
    }
    seqs::lemma_first(p.outputs, entry_for(output), i);
}

/// Placing a window leaves every output with a workspace on screen.
pub proof fn lemma_placing_keeps_workspaces(w: WorkspacesView, output: OutputId, key: ClientObjectId)
    requires
        w.wf(),
    ensures
        w.placed(output, key).wf(),
        w.active(output) is Some ==> w.placed(output, key).active(output) is Some,
{
    if w.active(output) is Some {
        let r = w.removed(key);
        lemma_removed_entry(w, output, key);
        seqs::lemma_first_holds(r.outputs, entry_for(output));
        let i = r.entry(output).unwrap();
        let p = w.placed(output, key);
        assert forall|j: int| 0 <= j < p.outputs.len() implies (#[trigger] p.outputs[j]).wf() by {
            assert(w.outputs[j].wf());
            assert(r.outputs[j] == w.outputs[j].without(key));
        }
        assert forall|j: int| 0 <= j < i implies !entry_for(output)(#[trigger] p.outputs[j]) by {
            assert(!entry_for(output)(r.outputs[j]));
        }
        seqs::lemma_first(p.outputs, entry_for(output), i);
    }
}

/// The windows of some outputs are the same ones, whether or not they come with
/// the output they are on.
pub proof fn lemma_windows_are_stacks(es: Seq<OutputWorkspacesView>)
    ensures
        all_windows(es).len() == all_stacks(es).len(),
        forall|i: int|
            0 <= i < all_windows(es).len() ==> (#[trigger] all_windows(es)[i]).1 == all_stacks(
                es,
            )[i],
    decreases es.len(),
{
    if es.len() > 0 {
        lemma_windows_are_stacks(es.drop_last());
        let (here, before) = (stacks(es.last().workspaces), all_stacks(es.drop_last()));
        assert forall|i: int| 0 <= i < all_windows(es).len() implies (
        #[trigger] all_windows(es)[i]).1 == all_stacks(es)[i] by {
            if i < before.len() {
                assert(all_windows(es)[i] == all_windows(es.drop_last())[i]);
            } else {
                assert(all_windows(es)[i] == tagged(es.last().output, here)[i - before.len()]);
            }
        }
    }
}

/// A window that is in a stack at most once is not at two places of it.
pub proof fn lemma_once_apart(s: Seq<ClientObjectId>, i: int, j: int)
    requires
        0 <= i < j < s.len(),
        times_in(s, s[j]) <= 1,
    ensures
        s[i] != s[j],
    decreases s.len(),
{
    if j == s.len() - 1 {
        lemma_times_contains(s.drop_last(), s[j]);
        if s[i] == s[j] {
            assert(s.drop_last()[i] == s[j]);
            assert(s.drop_last().contains(s[j]));
        }
    } else {
        assert(s.drop_last()[j] == s[j]);
        lemma_once_apart(s.drop_last(), i, j);
    }
}

/// Nothing taken out of nothing leaves nothing.
pub proof fn lemma_nothing_without(key: ClientObjectId)
    ensures
        stack_without(Seq::empty(), key) == Seq::<ClientObjectId>::empty(),
{
    seqs::lemma_filter_all(Seq::<ClientObjectId>::empty(), other_than(key));
}

impl WorkspacesView {
    /// No output has two entries.
    pub open spec fn apart(self) -> bool {
        forall|i: int, j: int|
            0 <= i < j < self.outputs.len() ==> (#[trigger] self.outputs[i]).output != (
            #[trigger] self.outputs[j]).output
    }

    /// Every output has a workspace on screen and no output has two entries, and
    /// no window is in two places.
    #[verifier::opaque]
    pub open spec fn sound(self) -> bool {
        &&& self.wf()
        &&& self.once()
        &&& self.apart()
    }
}

/// There is nothing wrong with nothing.
pub proof fn lemma_sound_empty()
    ensures
        WorkspacesView::empty().sound(),
{
    reveal(WorkspacesView::sound);
}

/// Taking a window out leaves the workspaces sound.
pub proof fn lemma_sound_removed(w: WorkspacesView, key: ClientObjectId)
    requires
        w.sound(),
    ensures
        w.removed(key).sound(),
{
    reveal(WorkspacesView::sound);
    law_removed(w, key, key);
    assert forall|i: int| 0 <= i < w.outputs.len() implies (#[trigger] w.removed(
        key,
    ).outputs[i]).wf() && w.removed(key).outputs[i].output == w.outputs[i].output by {
        assert(w.outputs[i].wf());
    }
}

/// Taking a client's windows out leaves the workspaces sound.
pub proof fn lemma_sound_client_removed(w: WorkspacesView, client_id: u32)
    requires
        w.sound(),
    ensures
        w.client_removed(client_id).sound(),
{
    reveal(WorkspacesView::sound);
    law_client_removed(w, client_id, (client_id, 0));
    assert forall|i: int| 0 <= i < w.outputs.len() implies (#[trigger] w.client_removed(
        client_id,
    ).outputs[i]).wf() && w.client_removed(client_id).outputs[i].output
        == w.outputs[i].output by {
        assert(w.outputs[i].wf());
    }
}

/// Another workspace in the place of the one on screen, with the same windows,
/// leaves the workspaces sound.
pub proof fn lemma_sound_turned(w: WorkspacesView, output: OutputId, shown: WorkspaceView)
    requires
        w.sound(),
        w.active(output) matches Some(a) ==> forall|k: ClientObjectId| #[trigger]
            times_in(shown.stack, k) == times_in(a.stack, k),
    ensures
        w.with_active(output, shown).sound(),
        w.with_active(output, shown).active(output) is Some == w.active(output) is Some,
{
    reveal(WorkspacesView::sound);
    seqs::lemma_first_holds(w.outputs, entry_for(output));
    let r = w.with_active(output, shown);
    if w.entry(output) is Some {
        let i = w.entry(output).unwrap();
        let e = w.outputs[i];
        assert(e.wf());
        assert forall|k: ClientObjectId| #[trigger] r.times(k) <= 1 by {
            assert(w.times(k) <= 1);
            assert(times_in(shown.stack, k) == times_in(e.shown().stack, k));
            lemma_stacks_update(e.workspaces, e.active, shown, k);
            lemma_all_stacks_update(w.outputs, i, e.with_shown(shown), k);
        }
        lemma_active_replaced(w, output, shown);
    }
}

/// Placing a window leaves the workspaces sound.
pub proof fn lemma_sound_placed(w: WorkspacesView, output: OutputId, key: ClientObjectId)
    requires
        w.sound(),
    ensures
        w.placed(output, key).sound(),
{
    if w.active(output) is Some {
        lemma_sound_removed(w, key);
        reveal(WorkspacesView::sound);
        law_placed(w, output, key, key);
        lemma_removed_entry(w, output, key);
        seqs::lemma_first_holds(w.removed(key).outputs, entry_for(output));
    }
}

/// Raising a window leaves the workspaces sound.
pub proof fn lemma_sound_raised(w: WorkspacesView, key: ClientObjectId)
    requires
        w.sound(),
    ensures
        w.raised(key).sound(),
{
    reveal(WorkspacesView::sound);
    law_raised(w, key, key);
    seqs::lemma_first_holds(w.outputs, entry_holding(key));
}

/// Holding a window aside that has been taken out leaves the workspaces sound.
pub proof fn lemma_sound_held(w: WorkspacesView, key: ClientObjectId)
    requires
        w.sound(),
    ensures
        w.removed(key).held(key).sound(),
{
    lemma_sound_removed(w, key);
    reveal(WorkspacesView::sound);
    law_removed(w, key, key);
    let r = w.removed(key);
    let h = r.held(key);
    assert forall|k: ClientObjectId| #[trigger] h.times(k) <= 1 by {
        assert(r.times(k) <= 1);
        if !r.unplaced.contains(key) {
            assert(h.unplaced.drop_last() =~= r.unplaced);
        }
    }
}

/// Holding no window aside leaves the workspaces sound.
pub proof fn lemma_sound_unheld(w: WorkspacesView)
    requires
        w.sound(),
    ensures
        w.unheld().sound(),
{
    reveal(WorkspacesView::sound);
    assert forall|k: ClientObjectId| #[trigger] w.unheld().times(k) <= 1 by {
        assert(w.times(k) <= 1);
    }
}

/// Growing keeps entries apart.
proof fn lemma_apart_grown(w: WorkspacesView, ids: Seq<OutputId>)
    requires
        w.apart(),
    ensures
        w.grown_all(ids).apart(),
    decreases ids.len(),
{
    if ids.len() > 0 {
        let g = w.grown_all(ids.drop_last());
        lemma_apart_grown(w, ids.drop_last());
        seqs::lemma_first_holds(g.outputs, entry_for(ids.last()));
        if g.entry(ids.last()) is None {
            let r = g.grown(ids.last());
            assert forall|i: int, j: int| 0 <= i < j < r.outputs.len() implies (
            #[trigger] r.outputs[i]).output != (#[trigger] r.outputs[j]).output by {
                assert(r.outputs[i] == g.outputs[i]);
                assert(!entry_for(ids.last())(g.outputs[i]));
                if j < g.outputs.len() {
                    assert(r.outputs[j] == g.outputs[j]);
                }
            }
        }
    }
}

/// What is left of entries that are apart is apart.
proof fn lemma_apart_filtered(
    outputs: Seq<OutputWorkspacesView>,
    p: spec_fn(OutputWorkspacesView) -> bool,
)
    requires
        forall|i: int, j: int|
            0 <= i < j < outputs.len() ==> (#[trigger] outputs[i]).output != (
            #[trigger] outputs[j]).output,
    ensures
        forall|i: int, j: int|
            0 <= i < j < outputs.filter(p).len() ==> (#[trigger] outputs.filter(p)[i]).output != (
            #[trigger] outputs.filter(p)[j]).output,
    decreases outputs.len(),
{
    reveal(Seq::filter);
    if outputs.len() > 0 {
        let rest = outputs.drop_last();
        lemma_apart_filtered(rest, p);
        let f = outputs.filter(p);
        assert forall|i: int, j: int| 0 <= i < j < f.len() implies (#[trigger] f[i]).output != (
        #[trigger] f[j]).output by {
            let r = rest.filter(p);
            if j < r.len() {
                assert(f[i] == r[i] && f[j] == r[j]);
            } else {
                assert(f[i] == r[i]);
                seqs::lemma_filter_passes(rest, p);
                assert(rest.contains(r[i]));
                let n = choose|n: int| 0 <= n < rest.len() && rest[n] == r[i];
                assert(outputs[n] == r[i]);
                assert(outputs[outputs.len() - 1] == f[j]);
            }
        }
    }
}

/// Bringing the workspaces in line with the outputs leaves them sound.
pub proof fn lemma_sound_synced(w: WorkspacesView, ids: Seq<OutputId>)
    requires
        w.sound(),
    ensures
        w.synced(ids).sound(),
{
    reveal(WorkspacesView::sound);
    law_every_output_has_a_workspace(w, ids);
    law_sync_keeps_windows(w, ids, (0, 0));
    lemma_apart_filtered(w.outputs, entry_live(ids));
    lemma_apart_grown(w.shrunk(ids), ids);
}

/// A window is visible exactly if it is among those showing on some output.
pub proof fn law_what_is_visible_is_showing_somewhere(w: WorkspacesView, key: ClientObjectId)
    requires
        w.sound(),
    ensures
        w.is_visible(key) <==> exists|output: OutputId| #[trigger]
            w.visible_stack(output).contains(key),
{
    reveal(WorkspacesView::sound);
    if w.is_visible(key) {
        let i = choose|i: int|
            0 <= i < w.outputs.len() && (#[trigger] w.outputs[i]).wf()
                && w.outputs[i].shown().stack.contains(key);
        let output = w.outputs[i].output;
        assert forall|j: int| 0 <= j < i implies !entry_for(output)(#[trigger] w.outputs[j]) by {
            assert(w.outputs[j].output != w.outputs[i].output);
        }
        seqs::lemma_first(w.outputs, entry_for(output), i);
        assert(w.visible_stack(output).contains(key));
    }
    if exists|output: OutputId| #[trigger] w.visible_stack(output).contains(key) {
        let output = choose|output: OutputId| #[trigger] w.visible_stack(output).contains(key);
        seqs::lemma_first_holds(w.outputs, entry_for(output));
        let i = w.entry(output).unwrap();
        assert(w.outputs[i].wf() && w.outputs[i].shown().stack.contains(key));
    }
}

/// Two sets of workspaces are for the same outputs, in the same order.
pub open spec fn same_outputs(a: WorkspacesView, b: WorkspacesView) -> bool {
    &&& a.outputs.len() == b.outputs.len()
    &&& forall|i: int|
        0 <= i < a.outputs.len() ==> (#[trigger] a.outputs[i]).output == b.outputs[i].output
}

/// Whether the workspaces agree with the outputs there are is a matter of which
/// outputs they are for.
pub proof fn lemma_in_step_by_outputs(a: WorkspacesView, b: WorkspacesView, ids: Seq<OutputId>)
    requires
        same_outputs(a, b),
        a.in_step(ids),
    ensures
        b.in_step(ids),
{
    assert forall|i: int| 0 <= i < b.outputs.len() implies ids.contains(
        (#[trigger] b.outputs[i]).output,
    ) by {
        assert(ids.contains(a.outputs[i].output));
    }
    assert forall|i: int| 0 <= i < ids.len() implies b.entry(#[trigger] ids[i]) is Some by {
        let p = entry_for(ids[i]);
        assert(a.entry(ids[i]) is Some);
        seqs::lemma_first_holds(a.outputs, p);
        seqs::lemma_first_holds(b.outputs, p);
        let j = a.entry(ids[i]).unwrap();
        assert(a.outputs[j].output == ids[i]);
        assert(p(b.outputs[j]));
    }
}

/// Placing a window, at whatever position, is done among the same outputs.
pub proof fn lemma_placing_keeps_outputs(
    w: WorkspacesView,
    output: OutputId,
    shown: WorkspaceView,
    key: ClientObjectId,
)
    ensures
        same_outputs(w, w.with_active(output, shown)),
        same_outputs(w, w.with_active(output, shown).placed(output, key)),
{
    seqs::lemma_first_holds(w.outputs, entry_for(output));
    let a = w.with_active(output, shown);
    let r = a.removed(key);
    seqs::lemma_first_holds(r.outputs, entry_for(output));
    assert forall|i: int| 0 <= i < a.outputs.len() implies (#[trigger] r.outputs[i]).output
        == a.outputs[i].output by {}
}

/// Taking windows that are in no two places out of what is held aside and holding
/// them aside again, one after another, comes to the same.
pub proof fn lemma_held_again(w: WorkspacesView, keys: Seq<ClientObjectId>, n: int)
    requires
        w.outputs.len() == 0,
        0 <= n < keys.len(),
        forall|k: ClientObjectId| #[trigger] times_in(keys, k) <= 1,
        w.unplaced == keys.take(n),
    ensures
        w.removed(keys[n]).held(keys[n]) == (WorkspacesView { unplaced: keys.take(n + 1), ..w }),
{
    let key = keys[n];
    let before = keys.take(n);
    assert(keys =~= keys.take(n + 1) + keys.skip(n + 1));
    lemma_times_add(keys.take(n + 1), keys.skip(n + 1), key);
    assert(keys.take(n + 1).drop_last() =~= before);
    assert(times_in(keys, key) <= 1);
    lemma_times_contains(before, key);
    assert forall|i: int| 0 <= i < before.len() implies other_than(key)(#[trigger] before[i]) by {
        assert(before.contains(before[i]));
    }
    seqs::lemma_filter_all(before, other_than(key));
    assert(w.removed(key).outputs =~= w.outputs);
    assert(before.push(key) =~= keys.take(n + 1));
}

/// A window put on the workspace showing on an output is there and in no other
/// workspace, wherever it was before.
pub proof fn law_a_placed_window_is_in_one_workspace(
    w: WorkspacesView,
    output: OutputId,
    key: ClientObjectId,
    other: OutputId,
)
    requires
        w.sound(),
        w.active(output) is Some,
        other != output,
    ensures
        w.placed(output, key).sound(),
        w.placed(output, key).times(key) == 1,
        top_of(w.placed(output, key).visible_stack(output)) == Some(key),
        !w.placed(output, key).visible_stack(other).contains(key),
        w.placed(output, key).output_of(key) == Some(output),
{
    lemma_sound_placed(w, output, key);
    law_placed(w, output, key, key);
    let p = w.placed(output, key);
    reveal(WorkspacesView::sound);
    let holding = entry_holding(key);
    seqs::lemma_first_holds(p.outputs, entry_for(output));
    let i = p.entry(output).unwrap();
    let e = p.outputs[i];
    assert(e.wf());
    assert(e.workspaces[e.active].stack.contains(key)) by {
        assert(e.shown().stack.last() == key);
    }
    assert(e.holds(key));
    seqs::lemma_first_holds(p.outputs, holding);
    assert(holding(p.outputs[i]));
    let f = seqs::first(p.outputs, holding).unwrap();
    if f != i {
        let g = p.outputs[f];
        let j = choose|j: int|
            0 <= j < g.workspaces.len() && (#[trigger] g.workspaces[j]).stack.contains(key);
        lemma_held_twice(p, f, j, i, e.active, key);
    }
    seqs::lemma_first_holds(e.workspaces, workspace_holding(key));
    assert(workspace_holding(key)(e.workspaces[e.active]));
    if p.visible_stack(other).contains(key) {
        seqs::lemma_first_holds(p.outputs, entry_for(other));
        let o = p.entry(other).unwrap();
        assert(p.outputs[o].wf());
        lemma_held_twice(p, o, p.outputs[o].active, i, e.active, key);
    }
}

/// A window in the workspaces of two entries is in two places.
proof fn lemma_held_twice(
    w: WorkspacesView,
    i: int,
    a: int,
    j: int,
    b: int,
    key: ClientObjectId,
)
    requires
        0 <= i < w.outputs.len(),
        0 <= j < w.outputs.len(),
        i != j,
        0 <= a < w.outputs[i].workspaces.len(),
        0 <= b < w.outputs[j].workspaces.len(),
        w.outputs[i].workspaces[a].stack.contains(key),
        w.outputs[j].workspaces[b].stack.contains(key),
    ensures
        w.times(key) > 1,
{
    let es = w.outputs;
    let bare = WorkspaceView { stack: Seq::empty(), ..es[i].workspaces[a] };
    let e = OutputWorkspacesView { workspaces: es[i].workspaces.update(a, bare), ..es[i] };
    lemma_stacks_update(es[i].workspaces, a, bare, key);
    lemma_all_stacks_update(es, i, e, key);
    lemma_times_contains(es[i].workspaces[a].stack, key);
    lemma_times_contains(es[j].workspaces[b].stack, key);
    lemma_stack_within(es.update(i, e), j, b, key);
}

/// A window showing on an output is on that output.
pub proof fn law_a_showing_window_is_on_its_output(
    w: WorkspacesView,
    output: OutputId,
    key: ClientObjectId,
)
    requires
        w.sound(),
        w.visible_stack(output).contains(key),
    ensures
        w.output_of(key) == Some(output),
{
    reveal(WorkspacesView::sound);
    let holding = entry_holding(key);
    seqs::lemma_first_holds(w.outputs, entry_for(output));
    let i = w.entry(output).unwrap();
    let e = w.outputs[i];
    assert(e.workspaces[e.active].stack.contains(key));
    assert(e.holds(key));
    seqs::lemma_first_holds(w.outputs, holding);
    assert(holding(w.outputs[i]));
    let f = seqs::first(w.outputs, holding).unwrap();
    if f != i {
        let g = w.outputs[f];
        let j = choose|j: int|
            0 <= j < g.workspaces.len() && (#[trigger] g.workspaces[j]).stack.contains(key);
        lemma_held_twice(w, f, j, i, e.active, key);
        assert(w.times(key) <= 1);
    }
    seqs::lemma_first_holds(e.workspaces, workspace_holding(key));
    assert(workspace_holding(key)(e.workspaces[e.active]));
}

/// What is put on screen on one output does not show on another, and putting
/// something else there next comes to the same as putting that there at once.
pub proof fn lemma_shown_elsewhere(
    w: WorkspacesView,
    output: OutputId,
    shown: WorkspaceView,
    next: WorkspaceView,
    other: OutputId,
)
    requires
        w.active(output) is Some,
    ensures
        other != output ==> w.with_active(output, shown).active(other) == w.active(other),
        w.with_active(output, shown).with_active(output, next) == w.with_active(output, next),
        w.with_active(output, w.active(output).unwrap()) == w,
{
    let p = w.with_active(output, shown);
    let of = entry_for(output);
    seqs::lemma_first_holds(w.outputs, of);
    let i = w.entry(output).unwrap();
    assert forall|j: int| 0 <= j < i implies !of(#[trigger] p.outputs[j]) by {
        assert(!of(w.outputs[j]));
    }
    seqs::lemma_first(p.outputs, of, i);
    assert(p.outputs[i].with_shown(next).workspaces =~= w.outputs[i].with_shown(next).workspaces);
    assert(p.with_active(output, next).outputs =~= w.with_active(output, next).outputs);
    let same = w.with_active(output, w.active(output).unwrap());
    assert(same.outputs[i].workspaces =~= w.outputs[i].workspaces);
    assert(same.outputs =~= w.outputs);
    if other != output {
        let q = entry_for(other);
        seqs::lemma_first_holds(w.outputs, q);
        match w.entry(other) {
            Some(k) => {
                assert forall|j: int| 0 <= j < k implies !q(#[trigger] p.outputs[j]) by {
                    assert(!q(w.outputs[j]));
                }
                seqs::lemma_first(p.outputs, q, k);
            },
            None => {
                assert forall|j: int| 0 <= j < p.outputs.len() implies !q(
                    #[trigger] p.outputs[j],
                ) by {
                    assert(!q(w.outputs[j]));
                }
                seqs::lemma_first_none(p.outputs, q);
            },
        }
    }
}

} // verus!
