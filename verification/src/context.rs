//! What a command works on: the client, the selected database, the reply, the
//! keyspace events that it raises, and the clients that wait for keys.

use vstd::prelude::*;

use crate::bytes::{dup, lit, text, views};
use crate::error::{ErrV, RedisError};
use crate::keyspace::{DbV, RedisDb};
use crate::list_type::ListPosition;
use crate::reply::{lemma_toks_add, lemma_toks_push, toks, Reply, Tok};
use crate::stream_data::StreamId;

verus! {

broadcast use {lemma_toks_push, lemma_toks_add};

/// The class of a keyspace event.
#[derive(Clone, Copy, PartialEq, Eq, Structural, Debug)]
pub enum EventClass {
    Generic,
    New,
    Str,
    List,
    Members,
    Stream,
}

/// The classes of keyspace events that are switched on.
#[derive(Clone, Copy, PartialEq, Eq, Structural, Debug)]
pub struct NotifyConfig {
    pub generic: bool,
    pub new: bool,
    pub string: bool,
    pub list: bool,
    pub members: bool,
    pub stream: bool,
}

/// Whether a class of events is switched on.
pub open spec fn class_enabled(n: NotifyConfig, class: EventClass) -> bool {
    match class {
        EventClass::Generic => n.generic,
        EventClass::New => n.new,
        EventClass::Str => n.string,
        EventClass::List => n.list,
        EventClass::Members => n.members,
        EventClass::Stream => n.stream,
    }
}

/// A keyspace event.
pub struct KeyspaceEvent {
    pub class: EventClass,
    pub name: Vec<u8>,
    pub key: Vec<u8>,
}

/// What an event says.
#[verifier::ext_equal]
pub struct EventV {
    pub class: EventClass,
    pub name: Seq<u8>,
    pub key: Seq<u8>,
}

impl View for KeyspaceEvent {
    type V = EventV;

    open spec fn view(&self) -> EventV {
        EventV { class: self.class, name: self.name@, key: self.key@ }
    }
}

/// What a list of events says.
pub open spec fn event_views(v: Seq<KeyspaceEvent>) -> Seq<EventV> {
    v.map_values(|e: KeyspaceEvent| e@)
}

/// What a waiting client waits for.
pub enum BlockedAction {
    /// Entries of a stream after an ID.
    Stream { id_after: StreamId },
    /// Entries of a stream after an ID, on behalf of a consumer of a group.
    StreamGroup {
        id_after: StreamId,
        group: Vec<u8>,
        consumer: Vec<u8>,
        count: Option<i64>,
        noack: bool,
    },
    /// Elements at an end of a list.
    ListPop { from: ListPosition, count: Option<i64> },
    /// An element at an end of a list, to be put at an end of another one.
    ListMove { from: ListPosition, to: ListPosition, destination: Vec<u8> },
    /// Acknowledgements of an offset by that many replicas.
    Wait { offset: i64, numreplicas: i64 },
    /// Acknowledgements of an offset by the local log and that many replicas.
    WaitAof { offset: i64, numlocal: i64, numreplicas: i64 },
}

/// What a waiting client waits for.
#[verifier::ext_equal]
pub enum ActionV {
    Stream { id_after: StreamId },
    StreamGroup {
        id_after: StreamId,
        group: Seq<u8>,
        consumer: Seq<u8>,
        count: Option<i64>,
        noack: bool,
    },
    ListPop { from: ListPosition, count: Option<i64> },
    ListMove { from: ListPosition, to: ListPosition, destination: Seq<u8> },
    Wait { offset: i64, numreplicas: i64 },
    WaitAof { offset: i64, numlocal: i64, numreplicas: i64 },
}

impl View for BlockedAction {
    type V = ActionV;

    open spec fn view(&self) -> ActionV {
        match self {
            BlockedAction::Stream { id_after } => ActionV::Stream { id_after: *id_after },
            BlockedAction::StreamGroup {
                id_after,
                group,
                consumer,
                count,
                noack,
            } => ActionV::StreamGroup {
                id_after: *id_after,
                group: group@,
                consumer: consumer@,
                count: *count,
                noack: *noack,
            },
            BlockedAction::ListPop { from, count } => ActionV::ListPop {
                from: *from,
                count: *count,
            },
            BlockedAction::ListMove { from, to, destination } => ActionV::ListMove {
                from: *from,
                to: *to,
                destination: destination@,
            },
            BlockedAction::Wait { offset, numreplicas } => ActionV::Wait {
                offset: *offset,
                numreplicas: *numreplicas,
            },
            BlockedAction::WaitAof { offset, numlocal, numreplicas } => ActionV::WaitAof {
                offset: *offset,
                numlocal: *numlocal,
                numreplicas: *numreplicas,
            },
        }
    }
}

/// A client that waits.
pub struct BlockedWaiter {
    pub client_id: u64,
    pub key: Vec<u8>,
    pub action: BlockedAction,
    pub deadline_ms: i64,
    /// The version of the protocol that the client speaks.
    pub resp_proto: u8,
    /// The user that the client is authenticated as; empty where it is not.
    pub user: Vec<u8>,
    pub redirect_on_role_change: bool,
}

/// What a waiting client waits for, and until when.
#[verifier::ext_equal]
pub struct WaiterV {
    pub client_id: u64,
    pub key: Seq<u8>,
    pub action: ActionV,
    pub deadline_ms: i64,
    pub resp_proto: u8,
    pub user: Seq<u8>,
    pub redirect_on_role_change: bool,
}

impl View for BlockedWaiter {
    type V = WaiterV;

    open spec fn view(&self) -> WaiterV {
        WaiterV {
            client_id: self.client_id,
            key: self.key@,
            action: self.action@,
            deadline_ms: self.deadline_ms,
            resp_proto: self.resp_proto,
            user: self.user@,
            redirect_on_role_change: self.redirect_on_role_change,
        }
    }
}

/// What a list of waiting clients waits for.
pub open spec fn waiter_views(v: Seq<BlockedWaiter>) -> Seq<WaiterV> {
    v.map_values(|w: BlockedWaiter| w@)
}

/// A list of waiting clients that grows by one.
pub proof fn lemma_waiters_push(s: Seq<BlockedWaiter>, w: BlockedWaiter)
    ensures
        waiter_views(s.push(w)) == waiter_views(s).push(w@),
{
    assert(waiter_views(s.push(w)) =~= waiter_views(s).push(w@));
}

/// A frame for another client.
pub struct Delivery {
    pub client_id: u64,
    pub frame: Vec<u8>,
}

/// A frame for another client.
#[verifier::ext_equal]
pub struct DeliveryV {
    pub client_id: u64,
    pub frame: Seq<u8>,
}

impl View for Delivery {
    type V = DeliveryV;

    open spec fn view(&self) -> DeliveryV {
        DeliveryV { client_id: self.client_id, frame: self.frame@ }
    }
}

/// Frames for other clients.
pub open spec fn delivery_views(v: Seq<Delivery>) -> Seq<DeliveryV> {
    v.map_values(|d: Delivery| d@)
}

/// A list of frames that grows by one.
pub proof fn lemma_deliveries_push(s: Seq<Delivery>, d: Delivery)
    ensures
        delivery_views(s.push(d)) == delivery_views(s).push(d@),
{
    assert(delivery_views(s.push(d)) =~= delivery_views(s).push(d@));
}

/// A client.
pub struct Client {
    pub id: u64,
    pub argv: Vec<Vec<u8>>,
    /// The version of the protocol that the client speaks.
    pub resp_proto: u8,
    /// The user that the client is authenticated as; empty where it is not.
    pub user: Vec<u8>,
    /// Commands of this client may not block.
    pub deny_blocking: bool,
    /// The command runs inside a script.
    pub lua: bool,
    /// A transaction is open.
    pub multi: bool,
    /// A watched key was changed.
    pub dirty_cas: bool,
    /// A command could not be queued.
    pub dirty_exec: bool,
    pub readonly: bool,
    pub capa_redirect: bool,
    /// The client has a connection that frames can be sent to.
    pub attached: bool,
    pub is_replica: bool,
    /// The command is not handed on to replicas and to the log.
    pub prevent_propagation: bool,
    pub blocked_on_keys: bool,
    pub last_write_repl_offset: i64,
    /// Keys whose waiting clients are served when the transaction ends.
    pub pending_wakes: Vec<Vec<u8>>,
    /// The commands of the open transaction.
    pub queued_argvs: Vec<Vec<Vec<u8>>>,
}

/// What a client holds.
#[verifier::ext_equal]
pub struct ClientV {
    pub id: u64,
    pub argv: Seq<Seq<u8>>,
    pub resp_proto: u8,
    pub user: Seq<u8>,
    pub deny_blocking: bool,
    pub lua: bool,
    pub multi: bool,
    pub dirty_cas: bool,
    pub dirty_exec: bool,
    pub readonly: bool,
    pub capa_redirect: bool,
    pub attached: bool,
    pub is_replica: bool,
    pub prevent_propagation: bool,
    pub blocked_on_keys: bool,
    pub last_write_repl_offset: i64,
    pub pending_wakes: Seq<Seq<u8>>,
    pub queued: Seq<Seq<Seq<u8>>>,
}

/// The contents of a list of argument lists.
pub open spec fn argv_views(v: Seq<Vec<Vec<u8>>>) -> Seq<Seq<Seq<u8>>> {
    v.map_values(|a: Vec<Vec<u8>>| views(a@))
}

impl View for Client {
    type V = ClientV;

    open spec fn view(&self) -> ClientV {
        ClientV {
            id: self.id,
            argv: views(self.argv@),
            resp_proto: self.resp_proto,
            user: self.user@,
            deny_blocking: self.deny_blocking,
            lua: self.lua,
            multi: self.multi,
            dirty_cas: self.dirty_cas,
            dirty_exec: self.dirty_exec,
            readonly: self.readonly,
            capa_redirect: self.capa_redirect,
            attached: self.attached,
            is_replica: self.is_replica,
            prevent_propagation: self.prevent_propagation,
            blocked_on_keys: self.blocked_on_keys,
            last_write_repl_offset: self.last_write_repl_offset,
            pending_wakes: views(self.pending_wakes@),
            queued: argv_views(self.queued_argvs@),
        }
    }
}

/// A client as it connects.
pub open spec fn new_client(id: u64) -> ClientV {
    ClientV {
        id,
        argv: Seq::empty(),
        resp_proto: 2,
        user: Seq::empty(),
        deny_blocking: false,
        lua: false,
        multi: false,
        dirty_cas: false,
        dirty_exec: false,
        readonly: false,
        capa_redirect: false,
        attached: false,
        is_replica: false,
        prevent_propagation: false,
        blocked_on_keys: false,
        last_write_repl_offset: 0,
        pending_wakes: Seq::empty(),
        queued: Seq::empty(),
    }
}

impl Client {
    /// A client as it connects.
    pub fn new(id: u64) -> (r: Client)
        ensures
            r@ == new_client(id),
    {
        let r = Client {
            id,
            argv: Vec::new(),
            resp_proto: 2,
            user: Vec::new(),
            deny_blocking: false,
            lua: false,
            multi: false,
            dirty_cas: false,
            dirty_exec: false,
            readonly: false,
            capa_redirect: false,
            attached: false,
            is_replica: false,
            prevent_propagation: false,
            blocked_on_keys: false,
            last_write_repl_offset: 0,
            pending_wakes: Vec::new(),
            queued_argvs: Vec::new(),
        };
        assert(r@ =~= new_client(id));
        r
    }
}

/// What a command works on.
pub struct CommandContext {
    pub client: Client,
    pub db: RedisDb,
    pub replies: Vec<Reply>,
    pub events: Vec<KeyspaceEvent>,
    pub notify: NotifyConfig,
    /// Clients that wait, in the order in which they began to.
    pub blocked: Vec<BlockedWaiter>,
    /// Frames for other clients.
    pub outbox: Vec<Delivery>,
    /// The time in milliseconds, taken when the command began.
    pub now_ms: i64,
    /// The number of changes since the last save.
    pub dirty: u64,
}

/// What a command works on.
#[verifier::ext_equal]
pub struct CtxV {
    pub client: ClientV,
    pub db: DbV,
    pub replies: Seq<Tok>,
    pub events: Seq<EventV>,
    pub notify: NotifyConfig,
    pub blocked: Seq<WaiterV>,
    pub outbox: Seq<DeliveryV>,
    pub now: i64,
    pub dirty: u64,
}

impl View for CommandContext {
    type V = CtxV;

    open spec fn view(&self) -> CtxV {
        CtxV {
            client: self.client@,
            db: self.db@,
            replies: toks(self.replies@),
            events: event_views(self.events@),
            notify: self.notify,
            blocked: waiter_views(self.blocked@),
            outbox: delivery_views(self.outbox@),
            now: self.now_ms,
            dirty: self.dirty,
        }
    }
}

/// How a command ends: its result, and the context after it.
#[verifier::ext_equal]
pub struct Outcome {
    pub result: Result<(), ErrV>,
    pub ctx: CtxV,
}

/// What a result says.
pub open spec fn res(r: Result<(), RedisError>) -> Result<(), ErrV> {
    match r {
        Ok(()) => Ok(()),
        Err(e) => Err(e@),
    }
}

/// How a command ended.
pub open spec fn done(r: Result<(), RedisError>, c: CtxV) -> Outcome {
    Outcome { result: res(r), ctx: c }
}

/// The command fails and changes nothing more.
pub open spec fn fails(c: CtxV, e: ErrV) -> Outcome {
    Outcome { result: Err(e), ctx: c }
}

/// The context with more reply tokens.
pub open spec fn says(c: CtxV, ts: Seq<Tok>) -> CtxV {
    CtxV { replies: c.replies + ts, ..c }
}

/// The command succeeds with these reply tokens.
pub open spec fn replies(c: CtxV, ts: Seq<Tok>) -> Outcome {
    Outcome { result: Ok(()), ctx: says(c, ts) }
}

/// The command succeeds with one reply token.
pub open spec fn replies_one(c: CtxV, t: Tok) -> Outcome {
    replies(c, seq![t])
}

/// The context with another database.
pub open spec fn with_db(c: CtxV, db: DbV) -> CtxV {
    CtxV { db, ..c }
}

/// The context after an event was raised, if its class is switched on.
pub open spec fn raises(c: CtxV, class: EventClass, name: Seq<char>, key: Seq<u8>) -> CtxV {
    if class_enabled(c.notify, class) {
        CtxV { events: c.events.push(EventV { class, name: text(name), key }), ..c }
    } else {
        c
    }
}

/// The context after an event was raised, if a condition holds.
pub open spec fn raises_if(
    b: bool,
    c: CtxV,
    class: EventClass,
    name: Seq<char>,
    key: Seq<u8>,
) -> CtxV {
    if b {
        raises(c, class, name, key)
    } else {
        c
    }
}

/// The context with other arguments.
pub open spec fn with_argv(c: CtxV, argv: Seq<Seq<u8>>) -> CtxV {
    CtxV { client: ClientV { argv, ..c.client }, ..c }
}

/// The context of a command that is not handed on.
pub open spec fn not_propagated(c: CtxV) -> CtxV {
    CtxV { client: ClientV { prevent_propagation: true, ..c.client }, ..c }
}

impl CommandContext {
    /// The database keeps its invariants.
    pub open spec fn wf(self) -> bool {
        self.db.wf()
    }

    /// A context for one command of a client on a database.
    pub fn with_db(client: Client, db: RedisDb) -> (r: CommandContext)
        requires
            db.wf(),
        ensures
            r.wf(),
            r@ == (CtxV {
                client: client@,
                db: db@,
                replies: Seq::empty(),
                events: Seq::empty(),
                notify: NotifyConfig {
                    generic: false,
                    new: false,
                    string: false,
                    list: false,
                    members: false,
                    stream: false,
                },
                blocked: Seq::empty(),
                outbox: Seq::empty(),
                now: 0,
                dirty: 0,
            }),
    {
        let r = CommandContext {
            client,
            db,
            replies: Vec::new(),
            events: Vec::new(),
            notify: NotifyConfig {
                generic: false,
                new: false,
                string: false,
                list: false,
                members: false,
                stream: false,
            },
            blocked: Vec::new(),
            outbox: Vec::new(),
            now_ms: 0,
            dirty: 0,
        };
        proof {
            assert(r@.replies =~= Seq::empty());
            assert(r@.events =~= Seq::empty());
            assert(r@.blocked =~= Seq::empty());
            assert(r@.outbox =~= Seq::empty());
        }
        r
    }

    /// A context for one command of a client on an empty database.
    pub fn new(client: Client) -> (r: CommandContext)
        ensures
            r.wf(),
            r@.client == client@,
            r@.replies == Seq::<Tok>::empty(),
            r@.db.objects == Map::<Seq<u8>, crate::keyspace::ObjV>::empty(),
    {
        CommandContext::with_db(client, RedisDb::new())
    }

    /// The number of arguments, the command name included.
    pub fn arg_count(&self) -> (r: usize)
        ensures
            r == self@.client.argv.len(),
    {
        self.client.argv.len()
    }

    /// An argument.
    pub fn arg(&self, i: usize) -> (r: &Vec<u8>)
        requires
            i < self@.client.argv.len(),
        ensures
            r@ == self@.client.argv[i as int],
    {
        &self.client.argv[i]
    }

    /// A copy of an argument.
    pub fn arg_owned(&self, i: usize) -> (r: Vec<u8>)
        requires
            i < self@.client.argv.len(),
        ensures
            r@ == self@.client.argv[i as int],
    {
        dup(&self.client.argv[i])
    }

    /// Adds one token to the reply.
    pub fn reply(&mut self, t: Reply)
        ensures
            final(self)@ == says(old(self)@, seq![t@]),
            final(self).db == old(self).db,
    {
        let ghost before = self@;
        let ghost v = t@;
        self.replies.push(t);
        assert(self@.replies =~= before.replies + seq![v]);
    }

    /// Adds tokens to the reply.
    pub fn reply_all(&mut self, ts: Vec<Reply>)
        ensures
            final(self)@ == says(old(self)@, toks(ts@)),
            final(self).db == old(self).db,
    {
        let mut ts = ts;
        self.replies.append(&mut ts);
    }

    /// Replies with an integer.
    pub fn reply_integer(&mut self, n: i64) -> (r: Result<(), RedisError>)
        ensures
            done(r, final(self)@) == replies_one(old(self)@, Tok::Int(n as int)),
            final(self).db == old(self).db,
    {
        self.reply(Reply::Int(n));
        Ok(())
    }

    /// Replies with a bulk string.
    pub fn reply_bulk(&mut self, s: Vec<u8>) -> (r: Result<(), RedisError>)
        ensures
            done(r, final(self)@) == replies_one(old(self)@, Tok::Bulk(s@)),
            final(self).db == old(self).db,
    {
        self.reply(Reply::Bulk(s));
        Ok(())
    }

    /// Replies with a status line.
    pub fn reply_simple_string(&mut self, s: &str) -> (r: Result<(), RedisError>)
        ensures
            done(r, final(self)@) == replies_one(old(self)@, crate::reply::status(s@)),
            final(self).db == old(self).db,
    {
        self.reply(Reply::Simple(lit(s)));
        Ok(())
    }

    /// Replies with the null bulk string.
    pub fn reply_null_bulk(&mut self) -> (r: Result<(), RedisError>)
        ensures
            done(r, final(self)@) == replies_one(old(self)@, Tok::NullBulk),
            final(self).db == old(self).db,
    {
        self.reply(Reply::NullBulk);
        Ok(())
    }

    /// Replies with the null array.
    pub fn reply_null_array(&mut self) -> (r: Result<(), RedisError>)
        ensures
            done(r, final(self)@) == replies_one(old(self)@, Tok::NullArray),
            final(self).db == old(self).db,
    {
        self.reply(Reply::NullArray);
        Ok(())
    }

    /// Replies with an array of bulk strings.
    pub fn reply_bulk_array(&mut self, items: &[Vec<u8>]) -> (r: Result<(), RedisError>)
        ensures
            done(r, final(self)@) == replies(
                old(self)@,
                crate::reply::bulk_array(views(items@)),
            ),
            final(self).db == old(self).db,
    {
        let mut out: Vec<Reply> = Vec::new();
        crate::reply::put_bulk_array(&mut out, items);
        assert(toks(out@) =~= crate::reply::bulk_array(views(items@)));
        self.reply_all(out);
        Ok(())
    }

    /// Whether a class of events is switched on.
    pub fn keyspace_notifications_enabled(&self, class: EventClass) -> (r: bool)
        ensures
            r == class_enabled(self@.notify, class),
    {
        match class {
            EventClass::Generic => self.notify.generic,
            EventClass::New => self.notify.new,
            EventClass::Str => self.notify.string,
            EventClass::List => self.notify.list,
            EventClass::Members => self.notify.members,
            EventClass::Stream => self.notify.stream,
        }
    }

    /// Raises an event, if its class is switched on.
    pub fn notify_keyspace_event(&mut self, class: EventClass, name: &str, key: &[u8])
        ensures
            final(self)@ == raises(old(self)@, class, name@, key@),
            final(self).db == old(self).db,
    {
        if self.keyspace_notifications_enabled(class) {
            let ghost before = self@;
            let e = KeyspaceEvent { class, name: lit(name), key: dup(key) };
            let ghost ev = e@;
            self.events.push(e);
            assert(self@.events =~= before.events.push(ev));
            assert(self@ =~= raises(before, class, name@, key@));
        }
    }

    /// Counts changes since the last save.
    pub fn add_dirty(&mut self, n: u64)
        ensures
            final(self)@ == counts_dirty(old(self)@, n),
            final(self).db == old(self).db,
    {
        self.dirty = self.dirty.saturating_add(n);
    }

    /// Replaces the arguments that are handed on.
    pub fn set_args(&mut self, argv: Vec<Vec<u8>>)
        ensures
            final(self)@ == with_argv(old(self)@, views(argv@)),
            final(self).db == old(self).db,
    {
        self.client.argv = argv;
    }

    /// Keeps the command from being handed on.
    pub fn set_prevent_propagation(&mut self)
        ensures
            final(self)@ == not_propagated(old(self)@),
            final(self).db == old(self).db,
    {
        self.client.prevent_propagation = true;
    }
}

/// The context after some changes were counted.
pub open spec fn counts_dirty(c: CtxV, n: u64) -> CtxV {
    CtxV {
        dirty: if c.dirty + n > u64::MAX {
            u64::MAX
        } else {
            (c.dirty + n) as u64
        },
        ..c
    }
}

} // verus!
