//! The order in which a document reaches the disk: it is written to a
//! temporary file beside the document file, flushed, and only then renamed
//! over the document file. The caller performs one action at a time and
//! reports whether it succeeded; this module decides what comes next, and
//! proves over a model of the two files that the document file always holds
//! either the document from before or the new document in full.

use vstd::prelude::*;

verus! {

/// One action on the disk.
#[derive(Debug, Clone, Copy, PartialEq, Eq, Structural)]
pub enum WriteAction {
    /// Create the temporary file, or empty it if it is there.
    CreateTemporary,
    /// Write the whole document to the temporary file.
    WriteTemporary,
    /// Flush the temporary file to the disk.
    SyncTemporary,
    /// Rename the temporary file over the document file.
    RenameOverDocument,
}

/// How far a write has come.
#[derive(Debug, Clone, Copy, PartialEq, Eq, Structural)]
pub enum WriteState {
    /// Nothing is done yet; the temporary file is to be created.
    Creating,
    /// The temporary file is there, empty; the document is to be written.
    Writing,
    /// The temporary file holds the document; it is to be flushed.
    Syncing,
    /// The temporary file is flushed; it is to be renamed.
    Renaming,
    /// The document file holds the new document.
    Committed,
    /// An action failed; the write is given up.
    Failed,
}

impl WriteState {
    /// The action that the state waits for, if the write is not over.
    pub open spec fn pending_action(self) -> Option<WriteAction> {
        match self {
            WriteState::Creating => Some(WriteAction::CreateTemporary),
            WriteState::Writing => Some(WriteAction::WriteTemporary),
            WriteState::Syncing => Some(WriteAction::SyncTemporary),
            WriteState::Renaming => Some(WriteAction::RenameOverDocument),
            WriteState::Committed => None,
            WriteState::Failed => None,
        }
    }

    /// The state after the pending action succeeded or failed. A write that
    /// is over stays as it is.
    pub open spec fn following(self, succeeded: bool) -> WriteState {
        match self {
            WriteState::Committed => WriteState::Committed,
            WriteState::Failed => WriteState::Failed,
            _ => if !succeeded {
                WriteState::Failed
            } else {
                match self {
                    WriteState::Creating => WriteState::Writing,
                    WriteState::Writing => WriteState::Syncing,
                    WriteState::Syncing => WriteState::Renaming,
                    _ => WriteState::Committed,
                }
            },
        }
    }

    /// The state in which every write begins.
    pub fn start() -> (state: WriteState)
        ensures
            state == WriteState::Creating,
    {
        WriteState::Creating
    }

    /// The action to perform next; `None` when the write is over.
    pub fn pending(&self) -> (action: Option<WriteAction>)
        ensures
            action == self.pending_action(),
    {
        match self {
            WriteState::Creating => Some(WriteAction::CreateTemporary),
            WriteState::Writing => Some(WriteAction::WriteTemporary),
            WriteState::Syncing => Some(WriteAction::SyncTemporary),
            WriteState::Renaming => Some(WriteAction::RenameOverDocument),
            WriteState::Committed => None,
            WriteState::Failed => None,
        }
    }

    /// The state after the pending action was performed.
    pub fn after(self, succeeded: bool) -> (next: WriteState)
        ensures
            next == self.following(succeeded),
    {
        match self {
            WriteState::Committed => WriteState::Committed,
            WriteState::Failed => WriteState::Failed,
            WriteState::Creating => if succeeded {
                WriteState::Writing
            } else {
                WriteState::Failed
            },
            WriteState::Writing => if succeeded {
                WriteState::Syncing
            } else {
                WriteState::Failed
            },
            WriteState::Syncing => if succeeded {
                WriteState::Renaming
            } else {
                WriteState::Failed
            },
            WriteState::Renaming => if succeeded {
                WriteState::Committed
            } else {
                WriteState::Failed
            },
        }
    }

    /// Whether the write ended with the new document in place.
    pub fn is_committed(&self) -> (committed: bool)
        ensures
            committed == (*self == WriteState::Committed),
    {
        match self {
            WriteState::Committed => true,
            _ => false,
        }
    }
}

/// The two files of a store: what each holds, `None` for a file that is not
/// there.
pub struct Disk {
    pub document: Option<Seq<u8>>,
    pub temporary: Option<Seq<u8>>,
}

/// What an action may leave on the disk. No action but the rename touches
/// the document file. An action that fails, or is cut short, may leave the
/// temporary file in any state; a rename happens wholly or not at all.
pub open spec fn may_leave(
    before: Disk,
    action: WriteAction,
    succeeded: bool,
    document: Seq<u8>,
    after: Disk,
) -> bool {
    match action {
        WriteAction::CreateTemporary => {
            &&& after.document == before.document
            &&& succeeded ==> after.temporary == Some(Seq::<u8>::empty())
        },
        WriteAction::WriteTemporary => {
            &&& after.document == before.document
            &&& succeeded ==> after.temporary == Some(document)
        },
        WriteAction::SyncTemporary => {
            &&& after.document == before.document
            &&& succeeded ==> after.temporary == before.temporary
        },
        WriteAction::RenameOverDocument => if succeeded {
            after.document == before.temporary && after.temporary is None
        } else {
            after == before
        },
    }
}

/// What holds of the disk in each state of a write that replaces `previous`
/// by `document`.
pub open spec fn consistent(
    state: WriteState,
    disk: Disk,
    previous: Option<Seq<u8>>,
    document: Seq<u8>,
) -> bool {
    match state {
        WriteState::Creating => disk.document == previous,
        WriteState::Writing => disk.document == previous,
        WriteState::Syncing => disk.document == previous && disk.temporary == Some(document),
        WriteState::Renaming => disk.document == previous && disk.temporary == Some(document),
        WriteState::Committed => disk.document == Some(document),
        WriteState::Failed => disk.document == previous,
    }
}

/// Whether `states` and `disks` record a write from its start: each state
/// follows from the one before by the outcome of its pending action, and
/// each disk is one that this action may leave.
pub open spec fn is_run(
    states: Seq<WriteState>,
    disks: Seq<Disk>,
    outcomes: Seq<bool>,
    document: Seq<u8>,
) -> bool {
    &&& states.len() == disks.len()
    &&& states.len() == outcomes.len() + 1
    &&& states[0] == WriteState::Creating
    &&& forall|k: int|
        0 <= k < outcomes.len() ==> {
            &&& (#[trigger] states[k]).pending_action() matches Some(action)
            &&& states[k + 1] == states[k].following(outcomes[k])
            &&& may_leave(disks[k], action, outcomes[k], document, disks[k + 1])
        }
}

/// Every action keeps the disk consistent with the state.
pub proof fn lemma_action_keeps_consistent(
    state: WriteState,
    before: Disk,
    succeeded: bool,
    previous: Option<Seq<u8>>,
    document: Seq<u8>,
    after: Disk,
)
    requires
        consistent(state, before, previous, document),
        state.pending_action() matches Some(action) && may_leave(
            before,
            action,
            succeeded,
            document,
            after,
        ),
    ensures
        consistent(state.following(succeeded), after, previous, document),
{
}

/// Atomic replacement: wherever a write stops, after any number of actions
/// and whatever their outcomes, the document file holds the document from
/// before the write or the new document in full, and it holds the new one
/// exactly when the write is committed or the two are the same.
pub proof fn lemma_document_is_never_partial(
    states: Seq<WriteState>,
    disks: Seq<Disk>,
    outcomes: Seq<bool>,
    document: Seq<u8>,
    at: int,
)
    requires
        is_run(states, disks, outcomes, document),
        0 <= at < states.len(),
    ensures
        consistent(states[at], disks[at], disks[0].document, document),
        disks[at].document == disks[0].document || disks[at].document == Some(document),
        states[at] == WriteState::Committed ==> disks[at].document == Some(document),
        states[at] != WriteState::Committed ==> disks[at].document == disks[0].document,
    decreases at,
{
    if at > 0 {
        lemma_document_is_never_partial(states, disks, outcomes, document, at - 1);
        lemma_action_keeps_consistent(
            states[at - 1],
            disks[at - 1],
            outcomes[at - 1],
            disks[0].document,
            document,
            disks[at],
        );
    }
}

/// A write is over after at most four actions, and it commits exactly when
/// all four succeeded.
pub proof fn lemma_write_ends(a: bool, b: bool, c: bool, d: bool)
    ensures
        ({
            let end = WriteState::Creating.following(a).following(b).following(c).following(d);
            &&& end.pending_action() is None
            &&& end == WriteState::Committed <==> a && b && c && d
        }),
{
}

} // verus!
