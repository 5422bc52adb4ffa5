//! The decisions of the broker-backed driver: the connection target, the
//! order of the channel setup, and what is asked of the broker for each
//! declaration, publication, subscription, settlement and deletion. The
//! driver that talks to the broker performs what is decided here.

use crate::shared::config::{AMQPParams, BusParams, Connection, Credentials};
use crate::shared::msgbus::bus::{BusError, Settlement};
use crate::shared::text::decimal_text;
use lapin::types::FieldTable;
use vstd::prelude::*;
use vstd::string::StringExecFns;

verus! {

/// Why the broker-backed driver could not be made ready.
#[derive(Debug)]
pub enum AmqpError {
    /// The driver does not support what the configuration asks for.
    NotImplemented(String),
    InvalidArgument(String),
    /// The broker could not be reached or the channel not set up.
    ConnectionFailure(String),
}

impl AmqpError {
    /// What the error says to an operator.
    pub fn message(&self) -> (text: String)
        ensures
            text@ == match self {
                AmqpError::NotImplemented(what) => "Not implemented for AMQP driver: "@ + what@,
                AmqpError::InvalidArgument(what) => "Invalid argument: "@ + what@,
                AmqpError::ConnectionFailure(why) => "Connection to AMQP server failed: "@ + why@,
            },
    {
        match self {
            AmqpError::NotImplemented(what) => {
                let mut text = String::from_str("Not implemented for AMQP driver: ");
                text.append(what.as_str());
                text
            },
            AmqpError::InvalidArgument(what) => {
                let mut text = String::from_str("Invalid argument: ");
                text.append(what.as_str());
                text
            },
            AmqpError::ConnectionFailure(why) => {
                let mut text = String::from_str("Connection to AMQP server failed: ");
                text.append(why.as_str());
                text
            },
        }
    }
}

/// `lapin::types::FieldTable`, the table of named arguments that goes with
/// a queue declaration.
#[verifier::external_type_specification]
#[verifier::external_body]
pub struct ExFieldTable(FieldTable);

/// What a field table holds: each key with its value where that is a 32-bit
/// signed integer, and with nothing where the value is of another kind.
pub uninterp spec fn field_table_entries(table: FieldTable) -> Map<Seq<char>, Option<i32>>;

/// The entries of a table that holds nothing.
pub open spec fn no_entries() -> Map<Seq<char>, Option<i32>> {
    Map::empty()
}

/// `FieldTable::default`: a table without entries.
#[verifier::external_body]
fn empty_field_table() -> (table: FieldTable)
    ensures
        field_table_entries(table) == no_entries(),
{
    FieldTable::default()
}

/// `FieldTable::insert` with a 32-bit signed integer as the value: the table
/// then holds `value` under `key`, in place of what it held there before,
/// and every other entry as it was.
#[verifier::external_body]
fn insert_long_int(table: &mut FieldTable, key: &str, value: i32)
    ensures
        field_table_entries(*final(table)) == field_table_entries(*old(table)).insert(
            key@,
            Some(value),
        ),
{
    table.insert(key.into(), lapin::types::AMQPValue::LongInt(value))
}

/// The arguments of a queue whose deliveries may stay unacknowledged for at
/// most `consumer_timeout`, or for any time.
pub open spec fn queue_arguments(consumer_timeout: Option<i32>) -> Map<Seq<char>, Option<i32>> {
    match consumer_timeout {
        None => no_entries(),
        Some(timeout) => no_entries().insert("x-consumer-timeout"@, Some(timeout)),
    }
}

/// What is asked of the broker to make sure that a queue exists.
#[derive(Debug)]
pub struct QueueDeclaration {
    pub queue: String,
    pub passive: bool,
    /// The queue outlives a restart of the broker.
    pub durable: bool,
    pub exclusive: bool,
    pub auto_delete: bool,
    pub nowait: bool,
    pub arguments: FieldTable,
}

impl QueueDeclaration {
    /// The declaration of the durable queue `topic` that the driver makes
    /// before it first publishes to or consumes from a topic. Declaring a
    /// queue again in the same way changes nothing, so it is made every
    /// time.
    pub open spec fn is_for(&self, topic: Seq<char>, consumer_timeout: Option<i32>) -> bool {
        &&& self.queue@ == topic
        &&& self.durable
        &&& !self.passive
        &&& !self.exclusive
        &&& !self.auto_delete
        &&& !self.nowait
        &&& field_table_entries(self.arguments) == queue_arguments(consumer_timeout)
    }
}

/// `String::from_utf8_lossy`: the text that `bytes` hold. Where the bytes
/// are not valid UTF-8, each stretch that is not is replaced by the
/// replacement character.
pub uninterp spec fn lossy_text(bytes: Seq<u8>) -> Seq<char>;

/// `String::from_utf8_lossy`, its result as an owned string. Valid UTF-8
/// comes out as the text that it encodes.
#[verifier::external_body]
fn text_from_bytes(bytes: &Vec<u8>) -> (text: String)
    ensures
        text@ == lossy_text(bytes@),
        vstd::utf8::valid_utf8(bytes@) ==> text@ == vstd::utf8::decode_utf8(bytes@),
{
    String::from_utf8_lossy(bytes.as_slice()).into_owned()
}

/// The credentials as they stand in a connection target: login, colon,
/// password and an at sign, or nothing where none are sent.
pub open spec fn credentials_part(credentials: Credentials) -> Seq<char> {
    match credentials {
        Credentials::LoginPassword(account) => account.login@ + ":"@ + account.password@ + "@"@,
        _ => Seq::empty(),
    }
}

/// The heartbeat parameter of a connection target, or nothing where no
/// interval is asked for.
pub open spec fn heartbeat_part(heartbeat: Option<u16>) -> Seq<char> {
    match heartbeat {
        Some(seconds) => "heartbeat="@ + crate::shared::text::decimal(seconds as nat),
        None => Seq::empty(),
    }
}

/// The scheme of a connection target with or without transport security.
pub open spec fn scheme(ssl: bool) -> Seq<char> {
    if ssl {
        "amqps"@
    } else {
        "amqp"@
    }
}

/// The connection target. A connection string is taken as it is, whatever
/// the credentials. From host, port and transport the target is laid out
/// as a URI: scheme, colon and two slashes, credentials, host, colon, port,
/// slash, virtual host, question mark and heartbeat parameter.
pub open spec fn connection_target(
    connection: Connection,
    credentials: Credentials,
    params: AMQPParams,
) -> Seq<char> {
    match connection {
        Connection::DSN(dsn) => dsn@,
        Connection::Params(place) => scheme(place.ssl) + "://"@ + credentials_part(credentials)
            + place.host@ + ":"@ + crate::shared::text::decimal(place.port as nat) + "/"@
            + params.vhost@ + "?"@ + heartbeat_part(params.heartbeat),
    }
}

/// One step of the channel setup, in the order in which the steps are made.
#[derive(Debug)]
pub enum SetupStep {
    /// Connect to the broker at `url`.
    Connect { url: String },
    /// Open the one channel that the driver works on.
    OpenChannel,
    /// Cap the unacknowledged deliveries on the channel at `count`.
    SetPrefetch { count: u16, global: bool },
    /// Have the broker confirm every publication.
    EnableConfirms { nowait: bool },
}

/// What the broker answered to a publication.
#[derive(Clone, Copy, Debug, PartialEq, Eq, Structural)]
pub enum Confirmation {
    Ack,
    Nack,
    NotRequested,
}

/// What is asked of the broker to publish one message.
#[derive(Debug)]
pub struct Publication {
    /// The declaration to make first.
    pub declaration: QueueDeclaration,
    pub exchange: String,
    pub routing_key: String,
    pub mandatory: bool,
    pub immediate: bool,
    pub body: Vec<u8>,
    pub content_type: String,
    pub delivery_mode: u8,
    pub app_id: String,
}

/// What is asked of the broker to start consuming a queue.
#[derive(Debug)]
pub struct Subscription {
    /// The declaration to make first.
    pub declaration: QueueDeclaration,
    pub queue: String,
    pub consumer_tag: String,
    pub no_local: bool,
    pub no_ack: bool,
    pub exclusive: bool,
    pub nowait: bool,
    pub arguments: FieldTable,
}

/// What is asked of the broker to delete a queue.
#[derive(Debug)]
pub struct QueueDeletion {
    pub queue: String,
    /// Delete only if the queue has no consumer.
    pub if_unused: bool,
    /// Delete only if the queue holds no message.
    pub if_empty: bool,
    pub nowait: bool,
}

/// What is asked of the broker to acknowledge a delivery.
#[derive(Clone, Copy, Debug, PartialEq, Eq, Structural)]
pub struct Acknowledgment {
    pub multiple: bool,
}

/// What is asked of the broker to refuse a delivery.
#[derive(Clone, Copy, Debug, PartialEq, Eq, Structural)]
pub struct Refusal {
    pub multiple: bool,
    pub requeue: bool,
}

/// One delivery as the driver adapts it: the payload as text, the requeue
/// policy of the bus that received it, and what has been asked of it so far.
#[derive(Debug)]
pub struct AmqpMessage {
    body: String,
    requeue: bool,
    state: Settlement,
}

/// A delivery in contracts.
pub struct AmqpMessageView {
    pub body: Seq<char>,
    /// Whether the bus lets a refused message go back on the queue.
    pub requeue: bool,
    pub state: Settlement,
}

impl AmqpMessage {
    pub closed spec fn view(&self) -> AmqpMessageView {
        AmqpMessageView { body: self.body@, requeue: self.requeue, state: self.state }
    }

    /// An unsettled delivery.
    pub fn new(body: String, requeue: bool) -> (message: Self)
        ensures
            message@ == (AmqpMessageView { body: body@, requeue, state: Settlement::Pending }),
    {
        AmqpMessage { body, requeue, state: Settlement::Pending }
    }

    /// The positive acknowledgment of this delivery and no other, if the
    /// delivery is unsettled; nothing if it has been settled before, and
    /// then nothing changes.
    pub fn ack(&mut self) -> (request: Option<Acknowledgment>)
        ensures
            final(self)@ == (AmqpMessageView { state: old(self)@.state.after_ack(), ..old(self)@ }),
            match request {
                Some(acknowledgment) => old(self)@.state is Pending && !acknowledgment.multiple,
                None => !(old(self)@.state is Pending),
            },
    {
        match self.state {
            Settlement::Pending => {
                self.state = Settlement::Acked;
                Some(Acknowledgment { multiple: false })
            },
            _ => None,
        }
    }

    /// The negative acknowledgment of this delivery and no other, if the
    /// delivery is unsettled; nothing if it has been settled before, and
    /// then nothing changes. The message goes back on the queue only if the
    /// caller asks for it and the policy of the bus allows it, and the
    /// delivery's state records the flag that goes to the broker.
    pub fn nack(&mut self, requeue: bool) -> (request: Option<Refusal>)
        ensures
            final(self)@ == (AmqpMessageView {
                state: old(self)@.state.after_nack(requeue && old(self)@.requeue),
                ..old(self)@
            }),
            match request {
                Some(refusal) => old(self)@.state is Pending && !refusal.multiple
                    && refusal.requeue == (requeue && old(self)@.requeue),
                None => !(old(self)@.state is Pending),
            },
    {
        match self.state {
            Settlement::Pending => {
                let sent = requeue && self.requeue;
                self.state = Settlement::Nacked { requeue: sent };
                Some(Refusal { multiple: false, requeue: sent })
            },
            _ => None,
        }
    }

    pub fn body(&self) -> (payload: String)
        ensures
            payload@ == self@.body,
    {
        self.body.clone()
    }

    /// What has been asked of the delivery so far.
    pub fn state(&self) -> (state: Settlement)
        ensures
            state == self@.state,
    {
        self.state
    }

    /// Whether the bus lets a refused message go back on the queue.
    pub fn requeue(&self) -> (allowed: bool)
        ensures
            allowed == self@.requeue,
    {
        self.requeue
    }
}

/// What the driver knows besides its connection.
pub struct AmqpBus {
    url: String,
    prefetch: u16,
    consumer_timeout: Option<i32>,
    consumption_queue: Option<String>,
    requeue: bool,
}

/// The driver's state in contracts.
pub struct AmqpBusView {
    /// The connection target.
    pub url: Seq<char>,
    pub prefetch: u16,
    pub consumer_timeout: Option<i32>,
    /// The queue that `consume` last bound, if it was called.
    pub consumption_queue: Option<Seq<char>>,
    pub requeue: bool,
}

impl AmqpBus {
    pub closed spec fn view(&self) -> AmqpBusView {
        AmqpBusView {
            url: self.url@,
            prefetch: self.prefetch,
            consumer_timeout: self.consumer_timeout,
            consumption_queue: crate::shared::text::option_text(self.consumption_queue),
            requeue: self.requeue,
        }
    }

    /// Works out how to reach the broker. Client-certificate credentials
    /// are refused before anything else is looked at; every other
    /// configuration gives a driver that has consumed nothing yet.
    pub fn new(connection_cfg: Connection, credentials: Credentials, bus_params: BusParams) -> (made:
        Result<Self, AmqpError>)
        ensures
            match made {
                Ok(bus) => {
                    &&& !(credentials is TLSClientAuth)
                    &&& bus_params matches BusParams::AMQP(params)
                    &&& bus@ == (AmqpBusView {
                        url: connection_target(connection_cfg, credentials, params),
                        prefetch: params.prefetch,
                        consumer_timeout: params.consumer_timeout,
                        consumption_queue: None,
                        requeue: params.requeue,
                    })
                },
                Err(error) => {
                    &&& credentials is TLSClientAuth
                    &&& error matches AmqpError::NotImplemented(what)
                    &&& what@ == "TLSClientAuth"@
                },
            },
    {
        let auth_part = match &credentials {
            Credentials::LoginPassword(account) => {
                let mut part = account.login.clone();
                part.append(":");
                part.append(account.password.as_str());
                part.append("@");
                part
            },
            Credentials::TLSClientAuth(_) => {
                return Err(AmqpError::NotImplemented(String::from_str("TLSClientAuth")));
            },
            Credentials::Anonymous => String::new(),
        };
        assert(auth_part@ =~= credentials_part(credentials));
        match bus_params {
            BusParams::AMQP(params) => {
                let url = match connection_cfg {
                    Connection::DSN(dsn) => dsn,
                    Connection::Params(place) => {
                        let heartbeat_param = match params.heartbeat {
                            None => String::new(),
                            Some(seconds) => {
                                let mut part = String::from_str("heartbeat=");
                                part.append(decimal_text(seconds).as_str());
                                part
                            },
                        };
                        assert(heartbeat_param@ =~= heartbeat_part(params.heartbeat));
                        let mut url = String::from_str(
                            if place.ssl {
                                "amqps"
                            } else {
                                "amqp"
                            },
                        );
                        url.append("://");
                        url.append(auth_part.as_str());
                        url.append(place.host.as_str());
                        url.append(":");
                        url.append(decimal_text(place.port).as_str());
                        url.append("/");
                        url.append(params.vhost.as_str());
                        url.append("?");
                        url.append(heartbeat_param.as_str());
                        url
                    },
                };
                Ok(
                    AmqpBus {
                        url,
                        prefetch: params.prefetch,
                        consumer_timeout: params.consumer_timeout,
                        consumption_queue: None,
                        requeue: params.requeue,
                    },
                )
            },
        }
    }

    /// The step of the channel setup that follows `completed` successful
    /// steps: connect, open the channel, cap the unacknowledged deliveries
    /// at the configured prefetch count, have publications confirmed. After
    /// the fourth nothing is left to do.
    pub fn setup_step(&self, completed: usize) -> (step: Option<SetupStep>)
        ensures
            match step {
                Some(SetupStep::Connect { url }) => completed == 0 && url@ == self@.url,
                Some(SetupStep::OpenChannel) => completed == 1,
                Some(SetupStep::SetPrefetch { count, global }) => completed == 2 && count
                    == self@.prefetch && !global,
                Some(SetupStep::EnableConfirms { nowait }) => completed == 3 && !nowait,
                None => completed >= 4,
            },
    {
        if completed == 0 {
            Some(SetupStep::Connect { url: self.url.clone() })
        } else if completed == 1 {
            Some(SetupStep::OpenChannel)
        } else if completed == 2 {
            Some(SetupStep::SetPrefetch { count: self.prefetch, global: false })
        } else if completed == 3 {
            Some(SetupStep::EnableConfirms { nowait: false })
        } else {
            None
        }
    }

    /// The error for a setup that failed at `step` for the reason `why`:
    /// always a connection failure, which nothing retries.
    pub fn setup_failure(step: &SetupStep, why: &str) -> (error: AmqpError)
        ensures
            error matches AmqpError::ConnectionFailure(text) && text@ == if step is Connect {
                "err: "@ + why@
            } else {
                why@
            },
    {
        match step {
            SetupStep::Connect { .. } => {
                let mut text = String::from_str("err: ");
                text.append(why);
                AmqpError::ConnectionFailure(text)
            },
            _ => AmqpError::ConnectionFailure(String::from_str(why)),
        }
    }

    /// The declaration of the queue `topic`: durable, and limited by the
    /// consumer timeout where one is configured.
    pub fn declare_queue(&self, topic: &str) -> (declaration: QueueDeclaration)
        ensures
            declaration.is_for(topic@, self@.consumer_timeout),
    {
        let arguments = match self.consumer_timeout {
            None => empty_field_table(),
            Some(timeout) => {
                let mut arguments = empty_field_table();
                insert_long_int(&mut arguments, "x-consumer-timeout", timeout);
                arguments
            },
        };
        QueueDeclaration {
            queue: String::from_str(topic),
            passive: false,
            durable: true,
            exclusive: false,
            auto_delete: false,
            nowait: false,
            arguments,
        }
    }

    /// What to ask of the broker to publish `msg` to `topic`: declare the
    /// queue, then send the bytes of `msg` through the default exchange
    /// straight to that queue, marked as persistent JSON from this
    /// application. The driver's state stays as it is.
    pub fn publish(&mut self, topic: String, msg: String) -> (publication: Publication)
        ensures
            final(self)@ == old(self)@,
            publication.declaration.is_for(topic@, old(self)@.consumer_timeout),
            publication.exchange@ == Seq::<char>::empty(),
            publication.routing_key@ == topic@,
            !publication.mandatory,
            !publication.immediate,
            publication.body@ == vstd::utf8::encode_utf8(msg@),
            publication.content_type@ == "application/json"@,
            publication.delivery_mode == 2,
            publication.app_id@ == "mqdish"@,
    {
        let declaration = self.declare_queue(topic.as_str());
        let body = msg.as_str().as_bytes_vec();
        Publication {
            declaration,
            exchange: String::new(),
            routing_key: topic,
            mandatory: false,
            immediate: false,
            body,
            content_type: String::from_str("application/json"),
            delivery_mode: 2,
            app_id: String::from_str("mqdish"),
        }
    }

    /// Whether a publication went through. It did only if the broker
    /// confirmed it. A negative confirmation, an answer without a word on
    /// confirmation, and a failure of the transport, `Err` with its reason,
    /// are errors.
    pub fn publish_result(answer: Result<Confirmation, String>) -> (sent: Result<(), BusError>)
        ensures
            match answer {
                Ok(Confirmation::Ack) => sent is Ok,
                Ok(Confirmation::Nack) => sent matches Err(error) && error.reason@
                    == "Failed to publish message: rejected by the broker"@,
                Ok(Confirmation::NotRequested) => sent matches Err(error) && error.reason@
                    == "Failed to publish message: not confirmed by the broker"@,
                Err(why) => sent matches Err(error) && error.reason@
                    == "Failed to publish message: "@ + why@,
            },
    {
        match answer {
            Ok(Confirmation::Ack) => Ok(()),
            Ok(Confirmation::Nack) => Err(
                BusError {
                    reason: String::from_str("Failed to publish message: rejected by the broker"),
                },
            ),
            Ok(Confirmation::NotRequested) => Err(
                BusError {
                    reason: String::from_str(
                        "Failed to publish message: not confirmed by the broker",
                    ),
                },
            ),
            Err(why) => {
                let mut reason = String::from_str("Failed to publish message: ");
                reason.append(why.as_str());
                Err(BusError { reason })
            },
        }
    }

    /// What to ask of the broker to consume `topic`: declare the queue, then
    /// register as the consumer `mqdish` with acknowledgments. Nothing is
    /// bound yet: the driver's state stays as it is until the broker has
    /// registered the consumer, which `consumed` records.
    pub fn consume(&mut self, topic: String) -> (subscription: Subscription)
        ensures
            final(self)@ == old(self)@,
            subscription.declaration.is_for(topic@, old(self)@.consumer_timeout),
            subscription.queue@ == topic@,
            subscription.consumer_tag@ == "mqdish"@,
            !subscription.no_local,
            !subscription.no_ack,
            !subscription.exclusive,
            !subscription.nowait,
            field_table_entries(subscription.arguments) == no_entries(),
    {
        let declaration = self.declare_queue(topic.as_str());
        Subscription {
            declaration,
            queue: topic,
            consumer_tag: String::from_str("mqdish"),
            no_local: false,
            no_ack: false,
            exclusive: false,
            nowait: false,
            arguments: empty_field_table(),
        }
    }

    /// The broker has registered the consumer on `topic`: the driver
    /// remembers the queue as the one to clean up on `close`.
    pub fn consumed(&mut self, topic: String)
        ensures
            final(self)@ == (AmqpBusView { consumption_queue: Some(topic@), ..old(self)@ }),
    {
        self.consumption_queue = Some(topic);
    }

    /// Adapts one delivery. A delivery that arrived whole becomes a message
    /// with its bytes as text and this bus's requeue policy; one that the
    /// transport could not decode is dropped, so that the sequence of
    /// messages goes on.
    pub fn adapt(&self, delivery: Option<Vec<u8>>) -> (message: Option<AmqpMessage>)
        ensures
            match delivery {
                Some(data) => message matches Some(adapted) && adapted@ == (AmqpMessageView {
                    body: lossy_text(data@),
                    requeue: self@.requeue,
                    state: Settlement::Pending,
                }) && (vstd::utf8::valid_utf8(data@) ==> adapted@.body
                    == vstd::utf8::decode_utf8(data@)),
                None => message is None,
            },
    {
        match delivery {
            Some(data) => Some(AmqpMessage::new(text_from_bytes(&data), self.requeue)),
            None => None,
        }
    }

    /// What to ask of the broker on shutdown: nothing if no queue is
    /// consumed, else the deletion of the consumed queue on condition that
    /// it is empty and has no consumer. The driver then forgets the queue,
    /// so closing again asks nothing.
    pub fn close(&mut self) -> (deletion: Option<QueueDeletion>)
        ensures
            final(self)@ == (AmqpBusView { consumption_queue: None, ..old(self)@ }),
            match old(self)@.consumption_queue {
                Some(queue) => deletion matches Some(request) && request.queue@ == queue
                    && request.if_empty && request.if_unused && !request.nowait,
                None => deletion is None,
            },
    {
        let mut consumed: Option<String> = None;
        std::mem::swap(&mut self.consumption_queue, &mut consumed);
        match consumed {
            Some(queue) => Some(
                QueueDeletion { queue, if_unused: true, if_empty: true, nowait: false },
            ),
            None => None,
        }
    }
}

} // verus!
