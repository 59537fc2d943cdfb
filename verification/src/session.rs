//! Per-peer session state machine of the receiver.
//!
//! A [`ClientHandler`] owns the protocol state of one peer: the
//! reassembler, the last KeepAlive id and the map of open file ids.  It
//! consumes raw datagram bytes and hands back the file-system [`Action`]s
//! the caller must perform and the [`Warning`]s it should log.  All file
//! and socket input/output stays with the caller; the decision logic here
//! is pure.

use crate::config::Config;
use crate::messages::{Message, MessageModel, spec_parse_message};
use crate::retransmit::{ExtractOutcome, Reassembler, slices_equal, spec_extract};
use crate::{Error, ParseFault, ParseOutcome, Wire};
use std::collections::HashMap;
use vstd::prelude::*;
use vstd::slice::{slice_subrange, slice_to_vec};

verus! {

broadcast use vstd::std_specs::hash::group_hash_axioms;

/// The 64-bit successor with wrap-around, as KeepAlive ids advance.
pub open spec fn wrap_inc(x: u64) -> u64 {
    if x == u64::MAX {
        0
    } else {
        (x + 1) as u64
    }
}

/// Textual join of a filename onto a root path, both as byte strings:
/// an absolute filename replaces the root, anything else is appended
/// behind a separator.
pub open spec fn spec_join_path(root: Seq<u8>, filename: Seq<u8>) -> Seq<u8> {
    if filename.len() > 0 && filename[0] == 47 {
        filename
    } else {
        root + seq![47u8] + filename
    }
}

/// Whether `p` is a prefix of `w`.
pub open spec fn spec_is_prefix(p: Seq<u8>, w: Seq<u8>) -> bool {
    p.len() <= w.len() && w.subrange(0, p.len() as int) == p
}

/// Whether the joined path leaves the root textually: it neither equals
/// the root nor continues it behind a separator.
pub open spec fn spec_path_escapes(root: Seq<u8>, filename: Seq<u8>) -> bool {
    let joined = spec_join_path(root, filename);
    !(joined == root || spec_is_prefix(root + seq![47u8], joined))
}

/// A file-system action the caller must perform on behalf of the
/// session.
#[derive(Debug, Clone, PartialEq, Eq)]
pub enum Action {
    /// Create the file at `path` (bytes of the joined path), preallocate
    /// it to `size` bytes, and associate it with `id`.
    CreateFile { path: Vec<u8>, size: u64, id: u64 },
    /// Write `content` into the file of `id` at byte `offset`.
    WriteChunk { id: u64, offset: u64, content: Vec<u8> },
    /// Close the file of `id`.
    CloseFile { id: u64 },
}

/// Mathematical model of an [`Action`].
#[verifier::ext_equal]
pub enum ActionModel {
    CreateFile { path: Seq<u8>, size: u64, id: u64 },
    WriteChunk { id: u64, offset: u64, content: Seq<u8> },
    CloseFile { id: u64 },
}

/// The model of an action.
pub open spec fn spec_action_model(a: Action) -> ActionModel {
    match a {
        Action::CreateFile { path, size, id } => ActionModel::CreateFile {
            path: path@,
            size,
            id,
        },
        Action::WriteChunk { id, offset, content } => ActionModel::WriteChunk {
            id,
            offset,
            content: content@,
        },
        Action::CloseFile { id } => ActionModel::CloseFile { id },
    }
}

/// The models of a sequence of actions.
pub open spec fn spec_actions_model(s: Seq<Action>) -> Seq<ActionModel> {
    s.map_values(|a: Action| spec_action_model(a))
}

/// A condition worth logging that does not stop the session.
#[derive(Debug, Clone, Copy, PartialEq, Eq, Structural)]
pub enum Warning {
    /// A KeepAlive id was not the successor of the previous one.
    KeepAliveGap { expected: u64, got: u64 },
    /// A File message named a path outside the root; it was dropped.
    PathEscape,
    /// A FileChunk named an id with no open file; it was dropped.
    UnknownFileId { id: u64 },
    /// A FileChunk arrived at an offset other than the expected one;
    /// the write proceeds at the offset the chunk names.
    OffsetMismatch { expected: u64, got: u64 },
    /// A FileChunk's offset plus its length exceeds the representable
    /// file size; it was dropped.
    OffsetOverflow,
}

/// Mathematical model of one peer's protocol state.
#[verifier::ext_equal]
pub struct SessionModel {
    /// The last KeepAlive id seen, if any.
    pub keep_alive: Option<u64>,
    /// For each open file id, the expected offset of the next chunk.
    pub files: Map<u64, u64>,
    /// The receiver's root path, as bytes.
    pub root: Seq<u8>,
}

/// Result of dispatching one message against a session state.
#[verifier::ext_equal]
pub struct StepResult {
    /// The state after the message.
    pub state: SessionModel,
    /// The action the caller must perform, if any.
    pub action: Option<ActionModel>,
    /// The warning the caller should log, if any.
    pub warning: Option<Warning>,
    /// Whether the session is complete.
    pub done: bool,
}

/// The message dispatch rules of the receiver, one step of the session
/// state machine.
pub open spec fn spec_step(s: SessionModel, m: MessageModel) -> StepResult {
    match m {
        MessageModel::Hello => StepResult { state: s, action: None, warning: None, done: false },
        MessageModel::KeepAlive { id } => {
            match s.keep_alive {
                Some(prev) => {
                    let expected = wrap_inc(prev);
                    StepResult {
                        state: SessionModel { keep_alive: Some(id), ..s },
                        action: None,
                        warning: if id == expected {
                            None
                        } else {
                            Some(Warning::KeepAliveGap { expected, got: id })
                        },
                        done: false,
                    }
                },
                None => StepResult {
                    state: SessionModel { keep_alive: Some(id), ..s },
                    action: None,
                    warning: None,
                    done: false,
                },
            }
        },
        MessageModel::CountFilesToUpload { .. } => StepResult {
            state: s,
            action: None,
            warning: None,
            done: false,
        },
        MessageModel::File { filename, created: _, size, id } => {
            if spec_path_escapes(s.root, filename) {
                StepResult { state: s, action: None, warning: Some(Warning::PathEscape), done: false }
            } else {
                StepResult {
                    state: SessionModel { files: s.files.insert(id, 0), ..s },
                    action: Some(ActionModel::CreateFile {
                        path: spec_join_path(s.root, filename),
                        size,
                        id,
                    }),
                    warning: None,
                    done: false,
                }
            }
        },
        MessageModel::FileChunk { id, offset, content } => {
            if content.len() == 0 {
                StepResult {
                    state: SessionModel { files: s.files.remove(id), ..s },
                    action: Some(ActionModel::CloseFile { id }),
                    warning: None,
                    done: false,
                }
            } else if !s.files.contains_key(id) {
                StepResult {
                    state: s,
                    action: None,
                    warning: Some(Warning::UnknownFileId { id }),
                    done: false,
                }
            } else if offset + content.len() > u64::MAX {
                StepResult { state: s, action: None, warning: Some(Warning::OffsetOverflow), done: false }
            } else {
                let expected = s.files[id];
                StepResult {
                    state: SessionModel {
                        files: s.files.insert(id, (offset + content.len()) as u64),
                        ..s
                    },
                    action: Some(ActionModel::WriteChunk { id, offset, content }),
                    warning: if expected == offset {
                        None
                    } else {
                        Some(Warning::OffsetMismatch { expected, got: offset })
                    },
                    done: false,
                }
            }
        },
        MessageModel::Done => StepResult { state: s, action: None, warning: None, done: true },
    }
}

/// Path-escape refusal law: a File message whose joined path does not
/// lie textually under the root changes no state and asks for no
/// action; only a warning is raised.
pub proof fn lemma_path_escape_refusal(
    s: SessionModel,
    filename: Seq<u8>,
    created: u64,
    size: u64,
    id: u64,
)
    requires
        spec_path_escapes(s.root, filename),
    ensures
        spec_step(s, MessageModel::File { filename, created, size, id }) == (StepResult {
            state: s,
            action: None,
            warning: Some(Warning::PathEscape),
            done: false,
        }),
{
}

/// Whether `p` is a prefix of `w`.
fn is_prefix(p: &[u8], w: &[u8]) -> (r: bool)
    ensures
        r == spec_is_prefix(p@, w@),
{
    if p.len() > w.len() {
        return false;
    }
    let head = slice_subrange(w, 0, p.len());
    proof {
        assert(head@ =~= w@.subrange(0, p@.len() as int));
    }
    slices_equal(p, head)
}

/// Joins `filename` onto `root` textually, as `Path::join` would: an
/// absolute filename replaces the root.
fn join_path(root: &[u8], filename: &[u8]) -> (r: Vec<u8>)
    ensures
        r@ == spec_join_path(root@, filename@),
{
    if filename.len() > 0 && filename[0] == 47 {
        slice_to_vec(filename)
    } else {
        let mut out = slice_to_vec(root);
        out.push(47);
        out.extend_from_slice(filename);
        proof {
            assert(out@ =~= root@ + seq![47u8] + filename@);
        }
        out
    }
}

/// Whether the joined path escapes the root.
fn path_escapes(root: &[u8], filename: &[u8]) -> (r: bool)
    ensures
        r == spec_path_escapes(root@, filename@),
{
    let joined = join_path(root, filename);
    if slices_equal(joined.as_slice(), root) {
        false
    } else {
        let mut prefix = slice_to_vec(root);
        prefix.push(47);
        proof {
            assert(prefix@ =~= root@ + seq![47u8]);
        }
        !is_prefix(prefix.as_slice(), joined.as_slice())
    }
}

/// What dispatching one message asks of the caller.
pub struct ProcessOutcome {
    /// Whether the session is complete.
    pub done: bool,
    /// The action the caller must perform, if any.
    pub action: Option<Action>,
    /// The warning the caller should log, if any.
    pub warning: Option<Warning>,
}

/// The model of an optional action.
pub open spec fn spec_opt_action_model(o: Option<Action>) -> Option<ActionModel> {
    match o {
        Some(a) => Some(spec_action_model(a)),
        None => None,
    }
}

/// An optional value as a sequence of zero or one elements.
pub open spec fn spec_opt_seq<T>(o: Option<T>) -> Seq<T> {
    match o {
        Some(x) => seq![x],
        None => Seq::empty(),
    }
}

/// Everything one buffer-processing pass produces: the state reached,
/// the chunk last accepted, the bytes left buffered, the actions and
/// warnings in order, and whether the session ended.
#[verifier::ext_equal]
pub struct DrainResult {
    pub state: SessionModel,
    pub prev: Seq<u8>,
    pub rest: Seq<u8>,
    pub actions: Seq<ActionModel>,
    pub warnings: Seq<Warning>,
    pub done: bool,
}

/// The drain loop of the handler, at the specification level: extract
/// distinct chunks one after the other, parse each as a message and
/// dispatch it, until the buffered bytes run out, a fatal fault is met,
/// or a message ends the session.  A chunk that parses to no complete
/// message is dropped and the handler waits for further datagrams; a
/// malformed chunk or message ends the session.
pub open spec fn spec_drain(s: SessionModel, avail: Seq<u8>, prev: Seq<u8>) -> DrainResult
    decreases avail.len(),
    via spec_drain_decreases
{
    if avail.len() == 0 {
        DrainResult {
            state: s,
            prev,
            rest: avail,
            actions: Seq::empty(),
            warnings: Seq::empty(),
            done: false,
        }
    } else {
        match spec_extract(avail, prev) {
            ExtractOutcome::Incomplete { rest } => DrainResult {
                state: s,
                prev,
                rest,
                actions: Seq::empty(),
                warnings: Seq::empty(),
                done: false,
            },
            ExtractOutcome::Malformed { rest } => DrainResult {
                state: s,
                prev,
                rest,
                actions: Seq::empty(),
                warnings: Seq::empty(),
                done: true,
            },
            ExtractOutcome::Chunk { chunk, rest } => match spec_parse_message(chunk) {
                ParseOutcome::Parsed { value, used } => {
                    let st = spec_step(s, value);
                    if st.done {
                        DrainResult {
                            state: st.state,
                            prev: chunk,
                            rest,
                            actions: spec_opt_seq(st.action),
                            warnings: spec_opt_seq(st.warning),
                            done: true,
                        }
                    } else {
                        let tail = spec_drain(st.state, rest, chunk);
                        DrainResult {
                            state: tail.state,
                            prev: tail.prev,
                            rest: tail.rest,
                            actions: spec_opt_seq(st.action) + tail.actions,
                            warnings: spec_opt_seq(st.warning) + tail.warnings,
                            done: tail.done,
                        }
                    }
                },
                ParseOutcome::Incomplete => DrainResult {
                    state: s,
                    prev: chunk,
                    rest,
                    actions: Seq::empty(),
                    warnings: Seq::empty(),
                    done: false,
                },
                ParseOutcome::Malformed => DrainResult {
                    state: s,
                    prev: chunk,
                    rest,
                    actions: Seq::empty(),
                    warnings: Seq::empty(),
                    done: true,
                },
            },
        }
    }
}

#[via_fn]
proof fn spec_drain_decreases(s: SessionModel, avail: Seq<u8>, prev: Seq<u8>) {
    crate::retransmit::lemma_extract_shrinks(avail, prev);
}

/// What one buffer-processing pass hands back to the caller.
pub struct BufferOutcome {
    /// Whether the session is complete.
    pub done: bool,
    /// The actions the caller must perform, in order.
    pub actions: Vec<Action>,
    /// The warnings the caller should log, in order.
    pub warnings: Vec<Warning>,
}

/// Per-peer protocol state of the receiver.
pub struct ClientHandler {
    /// The last KeepAlive id seen, if any.
    keep_alive: Option<u64>,
    /// The receiver's root path, as bytes.
    root: Vec<u8>,
    /// For each open file id, the expected offset of the next chunk.
    opened_files: HashMap<u64, u64>,
    /// Duplicate suppression and envelope boundary recovery.
    reassembler: Reassembler,
    /// Scratch decode buffer.
    data: Vec<u8>,
}

impl ClientHandler {
    /// The session state this handler is in.
    pub closed spec fn model(&self) -> SessionModel {
        SessionModel {
            keep_alive: self.keep_alive,
            files: self.opened_files@,
            root: self.root@,
        }
    }

    /// The bytes buffered and not yet consumed.
    pub closed spec fn buffered(&self) -> Seq<u8> {
        self.reassembler.available()
    }

    /// The most recently accepted chunk.
    pub closed spec fn last_accepted(&self) -> Seq<u8> {
        self.reassembler.previous()
    }

    /// Internal consistency.
    pub closed spec fn wf(&self) -> bool {
        self.reassembler.wf()
    }

    /// A fresh handler for a peer, writing under `root`.
    pub fn new(root: &[u8], config: &Config) -> (r: ClientHandler)
        ensures
            r.wf(),
            r.model() == (SessionModel {
                keep_alive: None,
                files: Map::<u64, u64>::empty(),
                root: root@,
            }),
            r.buffered() == Seq::<u8>::empty(),
            r.last_accepted() == Seq::<u8>::empty(),
    {
        ClientHandler {
            keep_alive: None,
            root: slice_to_vec(root),
            opened_files: HashMap::new(),
            reassembler: Reassembler::new(config),
            data: Vec::new(),
        }
    }

    /// Dispatches one message against the session state, following the
    /// dispatch rules [`spec_step`].
    pub fn process_message(&mut self, message: Message) -> (r: ProcessOutcome)
        requires
            old(self).wf(),
            message.wire_wf(),
        ensures
            final(self).wf(),
            final(self).buffered() == old(self).buffered(),
            final(self).last_accepted() == old(self).last_accepted(),
            ({
                let st = spec_step(old(self).model(), message.model());
                &&& final(self).model() == st.state
                &&& spec_opt_action_model(r.action) == st.action
                &&& r.warning == st.warning
                &&& r.done == st.done
            }),
    {
        match message {
            Message::Hello => ProcessOutcome { done: false, action: None, warning: None },
            Message::KeepAlive(id) => {
                match self.keep_alive {
                    Some(prev) => {
                        let expected: u64 = if prev == u64::MAX {
                            0
                        } else {
                            prev + 1
                        };
                        self.keep_alive = Some(id);
                        let warning = if id == expected {
                            None
                        } else {
                            Some(Warning::KeepAliveGap { expected, got: id })
                        };
                        ProcessOutcome { done: false, action: None, warning }
                    },
                    None => {
                        self.keep_alive = Some(id);
                        ProcessOutcome { done: false, action: None, warning: None }
                    },
                }
            },
            Message::CountFilesToUpload(_) => ProcessOutcome {
                done: false,
                action: None,
                warning: None,
            },
            Message::File { filename, created: _, size, id } => {
                let fb = filename.as_str().as_bytes();
                if path_escapes(self.root.as_slice(), fb) {
                    ProcessOutcome {
                        done: false,
                        action: None,
                        warning: Some(Warning::PathEscape),
                    }
                } else {
                    let path = join_path(self.root.as_slice(), fb);
                    self.opened_files.insert(id, 0);
                    ProcessOutcome {
                        done: false,
                        action: Some(Action::CreateFile { path, size, id }),
                        warning: None,
                    }
                }
            },
            Message::FileChunk { id, offset, content_size, content } => {
                if content_size == 0 {
                    self.opened_files.remove(&id);
                    proof {
                        assert(content@.take(content_size as int) =~= Seq::<u8>::empty());
                    }
                    ProcessOutcome {
                        done: false,
                        action: Some(Action::CloseFile { id }),
                        warning: None,
                    }
                } else {
                    let expected_opt = match self.opened_files.get(&id) {
                        Some(v) => Some(*v),
                        None => None,
                    };
                    match expected_opt {
                        None => ProcessOutcome {
                            done: false,
                            action: None,
                            warning: Some(Warning::UnknownFileId { id }),
                        },
                        Some(expected) => {
                            if offset > u64::MAX - (content_size as u64) {
                                ProcessOutcome {
                                    done: false,
                                    action: None,
                                    warning: Some(Warning::OffsetOverflow),
                                }
                            } else {
                                let body = slice_to_vec(
                                    slice_subrange(content.as_slice(), 0, content_size as usize),
                                );
                                proof {
                                    assert(body@ =~= content@.take(content_size as int));
                                }
                                self.opened_files.insert(id, offset + (content_size as u64));
                                let warning = if expected == offset {
                                    None
                                } else {
                                    Some(Warning::OffsetMismatch { expected, got: offset })
                                };
                                ProcessOutcome {
                                    done: false,
                                    action: Some(Action::WriteChunk { id, offset, content: body }),
                                    warning,
                                }
                            }
                        },
                    }
                }
            },
            Message::Done => ProcessOutcome { done: true, action: None, warning: None },
        }
    }

    /// Feeds one received datagram buffer to the session and drains it:
    /// every distinct chunk that parses as a message is dispatched, and
    /// the actions and warnings of all dispatched messages are handed
    /// back in order, following [`spec_drain`].
    #[verifier::loop_isolation(false)]
    #[verifier::rlimit(60)]
    pub fn process_buffer(&mut self, buffer: &[u8]) -> (r: BufferOutcome)
        requires
            old(self).wf(),
        ensures
            final(self).wf(),
            ({
                let d = spec_drain(
                    old(self).model(),
                    old(self).buffered() + buffer@,
                    old(self).last_accepted(),
                );
                &&& final(self).model() == d.state
                &&& final(self).buffered() == d.rest
                &&& final(self).last_accepted() == d.prev
                &&& spec_actions_model(r.actions@) == d.actions
                &&& r.warnings@ == d.warnings
                &&& r.done == d.done
            }),
    {
        self.reassembler.push_data(buffer);
        let mut actions: Vec<Action> = Vec::new();
        let mut warnings: Vec<Warning> = Vec::new();
        let ghost d = spec_drain(
            old(self).model(),
            old(self).buffered() + buffer@,
            old(self).last_accepted(),
        );
        proof {
            assert(spec_actions_model(actions@) =~= Seq::<ActionModel>::empty());
            assert(warnings@ =~= Seq::<Warning>::empty());
        }
        loop
            invariant
                self.wf(),
                ({
                    let cur = spec_drain(self.model(), self.buffered(), self.last_accepted());
                    &&& d.state == cur.state
                    &&& d.prev == cur.prev
                    &&& d.rest == cur.rest
                    &&& d.done == cur.done
                    &&& d.actions == spec_actions_model(actions@) + cur.actions
                    &&& d.warnings == warnings@ + cur.warnings
                }),
            decreases self.buffered().len(),
        {
            let ghost pre_avail = self.buffered();
            let ghost pre_prev = self.last_accepted();
            let ghost cur = spec_drain(self.model(), pre_avail, pre_prev);
            let step_result = self.reassembler.get_next_data(&mut self.data);
            match step_result {
                Err(Error::NoData) => {
                    proof {
                        assert(spec_actions_model(actions@) + cur.actions =~= spec_actions_model(
                            actions@,
                        ));
                        assert(warnings@ + cur.warnings =~= warnings@);
                    }
                    return BufferOutcome { done: false, actions, warnings };
                },
                Err(Error::Deserialize(ParseFault::Incomplete)) => {
                    proof {
                        assert(spec_actions_model(actions@) + cur.actions =~= spec_actions_model(
                            actions@,
                        ));
                        assert(warnings@ + cur.warnings =~= warnings@);
                    }
                    return BufferOutcome { done: false, actions, warnings };
                },
                Err(_) => {
                    proof {
                        assert(spec_actions_model(actions@) + cur.actions =~= spec_actions_model(
                            actions@,
                        ));
                        assert(warnings@ + cur.warnings =~= warnings@);
                    }
                    return BufferOutcome { done: true, actions, warnings };
                },
                Ok(()) => {
                    match Message::from_wire(self.data.as_slice()) {
                        Err(Error::Deserialize(ParseFault::Incomplete)) => {
                            proof {
                                assert(spec_actions_model(actions@) + cur.actions
                                    =~= spec_actions_model(actions@));
                                assert(warnings@ + cur.warnings =~= warnings@);
                            }
                            return BufferOutcome { done: false, actions, warnings };
                        },
                        Err(_) => {
                            proof {
                                assert(spec_actions_model(actions@) + cur.actions
                                    =~= spec_actions_model(actions@));
                                assert(warnings@ + cur.warnings =~= warnings@);
                            }
                            return BufferOutcome { done: true, actions, warnings };
                        },
                        Ok((message, _used)) => {
                            let ghost st = spec_step(self.model(), message.model());
                            let outcome = self.process_message(message);
                            let ghost acts_before = spec_actions_model(actions@);
                            match outcome.action {
                                Some(a) => {
                                    actions.push(a);
                                    proof {
                                        assert(spec_actions_model(actions@) =~= acts_before
                                            + spec_opt_seq(st.action));
                                    }
                                },
                                None => {
                                    proof {
                                        assert(spec_actions_model(actions@) =~= acts_before
                                            + spec_opt_seq(st.action));
                                    }
                                },
                            }
                            let ghost warns_before = warnings@;
                            match outcome.warning {
                                Some(w) => {
                                    warnings.push(w);
                                    proof {
                                        assert(warnings@ =~= warns_before + spec_opt_seq(
                                            st.warning,
                                        ));
                                    }
                                },
                                None => {
                                    proof {
                                        assert(warnings@ =~= warns_before + spec_opt_seq(
                                            st.warning,
                                        ));
                                    }
                                },
                            }
                            if outcome.done {
                                proof {
                                    assert(d.actions =~= spec_actions_model(actions@));
                                    assert(d.warnings =~= warnings@);
                                }
                                return BufferOutcome { done: true, actions, warnings };
                            }
                            proof {
                                crate::retransmit::lemma_extract_shrinks(pre_avail, pre_prev);
                                assert(d.actions =~= spec_actions_model(actions@) + spec_drain(
                                    self.model(),
                                    self.buffered(),
                                    self.last_accepted(),
                                ).actions);
                                assert(d.warnings =~= warnings@ + spec_drain(
                                    self.model(),
                                    self.buffered(),
                                    self.last_accepted(),
                                ).warnings);
                            }
                        },
                    }
                },
            }
        }
    }
}

/// KeepAlive monotonic-warning law: from a fresh session, the first
/// KeepAlive id `a` raises no warning; a second id raises a warning
/// exactly when it is not the wrapping successor of `a`.  So ids
/// `a, a + 1` raise none and `a, a + 2` raise exactly one.
pub proof fn lemma_keep_alive_warning(s: SessionModel, a: u64, b: u64)
    requires
        s.keep_alive is None,
    ensures
        spec_step(s, MessageModel::KeepAlive { id: a }).warning is None,
        spec_step(s, MessageModel::KeepAlive { id: a }).state.keep_alive == Some(a),
        spec_step(
            spec_step(s, MessageModel::KeepAlive { id: a }).state,
            MessageModel::KeepAlive { id: b },
        ).warning == (if b == wrap_inc(a) {
            None
        } else {
            Some(Warning::KeepAliveGap { expected: wrap_inc(a), got: b })
        }),
{
}

/// The contents of a file image after writing `content` at byte
/// `offset`: the meaning of a `WriteChunk` action applied to a file
/// preallocated to its final size.
pub open spec fn spec_write_at(file: Seq<u8>, offset: int, content: Seq<u8>) -> Seq<u8>
    recommends
        0 <= offset,
        offset + content.len() <= file.len(),
{
    Seq::new(
        file.len(),
        |i: int|
            if offset <= i < offset + content.len() {
                content[i - offset]
            } else {
                file[i]
            },
    )
}

/// A file image of `n` zero bytes, as preallocation leaves it.
pub open spec fn spec_zeros(n: int) -> Seq<u8> {
    Seq::new(n as nat, |i: int| 0u8)
}

/// Applies a `WriteChunk` action to an in-memory file image.
pub fn apply_chunk(file: &mut Vec<u8>, offset: u64, content: &[u8])
    requires
        offset + content@.len() <= old(file)@.len(),
    ensures
        final(file)@ == spec_write_at(old(file)@, offset as int, content@),
{
    let flen = file.len();
    let base = offset as usize;
    let n = content.len();
    let mut i: usize = 0;
    while i < n
        invariant
            i <= n,
            n == content@.len(),
            base == offset,
            base + n <= flen,
            flen == file@.len(),
            flen == old(file)@.len(),
            forall|j: int|
                0 <= j < file@.len() ==> file@[j] == (if base <= j < base + i {
                    content@[j - base]
                } else {
                    old(file)@[j]
                }),
        decreases n - i,
    {
        file[base + i] = content[i];
        i = i + 1;
    }
    proof {
        assert(file@ =~= spec_write_at(old(file)@, offset as int, content@));
    }
}

/// Hole policy law: when chunks of `k` bytes arrive at offsets `0` and
/// `2 * k` of a file preallocated to at least `3 * k` zero bytes, the
/// first `k` bytes hold the first chunk, the bytes between stay zero,
/// and the bytes from `2 * k` hold the second chunk.
pub proof fn lemma_hole_policy(k: int, size: int, c1: Seq<u8>, c2: Seq<u8>)
    requires
        0 <= k,
        c1.len() == k,
        c2.len() == k,
        size >= 3 * k,
    ensures
        ({
            let written = spec_write_at(spec_write_at(spec_zeros(size), 0, c1), 2 * k, c2);
            &&& written.subrange(0, k) == c1
            &&& written.subrange(k, 2 * k) == spec_zeros(k)
            &&& written.subrange(2 * k, 3 * k) == c2
        }),
{
    let written = spec_write_at(spec_write_at(spec_zeros(size), 0, c1), 2 * k, c2);
    assert(written.subrange(0, k) =~= c1);
    assert(written.subrange(k, 2 * k) =~= spec_zeros(k));
    assert(written.subrange(2 * k, 3 * k) =~= c2);
}

} // verus!
