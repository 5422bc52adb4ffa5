//! Settings of a producer or a worker: where the broker is, how to log in,
//! the driver's parameters, the topic and the worker concurrency.

use crate::shared::text::join;
use std::path::PathBuf;
use vstd::prelude::*;
use vstd::string::StringExecFns;

verus! {

/// Everything a producer or a worker is configured with.
#[derive(Debug)]
pub struct AppConfig {
    pub connection: Connection,
    pub credentials: Credentials,
    pub bus_params: BusParams,
    pub topic: String,
    pub concurrency: usize,
}

/// The parameters of the message bus driver in use.
#[derive(Debug)]
pub enum BusParams {
    AMQP(AMQPParams),
}

/// Parameters of the broker-backed driver.
#[derive(Debug)]
pub struct AMQPParams {
    /// Virtual host on the broker.
    pub vhost: String,
    /// Cap on unacknowledged deliveries that the broker keeps outstanding.
    pub prefetch: u16,
    /// Heartbeat interval in seconds, if one is asked for.
    pub heartbeat: Option<u16>,
    /// Longest time a delivery may stay unacknowledged, if the queue limits it.
    pub consumer_timeout: Option<i32>,
    /// Whether a negative acknowledgment may put the message back on the queue.
    pub requeue: bool,
}

/// Where the broker is.
#[derive(Debug)]
pub enum Connection {
    /// A ready-made connection string.
    DSN(String),
    /// Host, port and transport, from which the connection string is built.
    Params(ConnectionParams),
}

/// Host, port and transport of the broker.
#[derive(Debug)]
pub struct ConnectionParams {
    pub host: String,
    pub port: u16,
    pub ssl: bool,
}

/// How to log in to the broker.
#[derive(Debug)]
pub enum Credentials {
    LoginPassword(LoginPassword),
    /// Recognized, but no driver supports it.
    TLSClientAuth(TLSClientAuth),
    /// No credentials are sent.
    Anonymous,
}

/// The files of a client certificate.
#[derive(Debug)]
pub struct TLSClientAuth {
    pub ca_file: String,
    pub cert_file: String,
    pub key_file: String,
}

/// An account on the broker.
#[derive(Debug)]
pub struct LoginPassword {
    pub login: String,
    pub password: String,
}

/// Why no configuration could be loaded.
#[derive(Debug)]
pub enum ConfigError {
    /// No candidate file could be opened; holds the candidates, separated by
    /// a comma and a space.
    NotFound(String),
}

/// `std::path::PathBuf`, carried from the home directory lookup to the text
/// of the finished path; nothing is known of what it holds.
#[verifier::external_type_specification]
#[verifier::external_body]
pub struct ExPathBuf(PathBuf);

/// `dirs::home_dir`: the current user's home directory, from the environment
/// or the user database, or nothing where neither gives one. Nothing is
/// claimed of the answer.
#[verifier::external_body]
fn home_dir() -> (home: Option<PathBuf>) {
    dirs::home_dir()
}

/// `PathBuf::push`: extends `dir` by the component `name`, as the platform
/// writes paths. Nothing is claimed of the path that results.
#[verifier::external_body]
fn push_component(dir: &mut PathBuf, name: &str) {
    dir.push(name)
}

/// `Path::to_str`: the path as text, or nothing where it is not valid
/// Unicode. Nothing is claimed of the text.
#[verifier::external_body]
fn path_text(dir: &PathBuf) -> (text: Option<String>) {
    dir.to_str().map(|t| t.to_string())
}

/// The two places searched on every host, in the order of the search.
pub open spec fn fixed_paths() -> Seq<Seq<char>> {
    seq!["/etc/mqdish/config.yaml"@, "./mqdish.yaml"@]
}

/// The search list for a configuration file where the user has a
/// configuration file of their own at `personal`, or has none: the fixed
/// places, then the personal one.
pub open spec fn search_list(personal: Option<Seq<char>>) -> Seq<Seq<char>> {
    match personal {
        Some(path) => fixed_paths().push(path),
        None => fixed_paths(),
    }
}

/// The user's own configuration file, given the user's home directory: the
/// file `.config/mqdish/config.yaml` under it. A user with a home directory
/// always has such a candidate, whose text is empty where the path is not
/// valid Unicode; a user without has none.
pub fn personal_path(home: Option<PathBuf>) -> (path: Option<String>)
    ensures
        path is Some <==> home is Some,
{
    match home {
        None => None,
        Some(dir) => {
            let mut dir = dir;
            push_component(&mut dir, ".config");
            push_component(&mut dir, "mqdish");
            push_component(&mut dir, "config.yaml");
            match path_text(&dir) {
                Some(text) => Some(text),
                None => Some(String::new()),
            }
        },
    }
}

/// The configuration file of the current user, where the host knows a home
/// directory for that user.
fn personal_config_path() -> (path: Option<String>) {
    personal_path(home_dir())
}

/// The search list for a configuration file, given the user's own
/// configuration file.
pub fn default_paths(personal: Option<String>) -> (paths: Vec<String>)
    ensures
        crate::shared::text::texts(paths@) == search_list(
            crate::shared::text::option_text(personal),
        ),
{
    let mut paths: Vec<String> = Vec::new();
    paths.push(String::from_str("/etc/mqdish/config.yaml"));
    paths.push(String::from_str("./mqdish.yaml"));
    match personal {
        Some(path) => {
            paths.push(path);
            assert(crate::shared::text::texts(paths@) =~= fixed_paths().push(path@));
        },
        None => {
            assert(crate::shared::text::texts(paths@) =~= fixed_paths());
        },
    }
    paths
}

/// The places searched where the caller names no file: the fixed places,
/// then the user's own file if the host knows a home directory.
pub fn get_default_paths() -> (paths: Vec<String>)
    ensures
        exists|personal: Option<Seq<char>>|
            crate::shared::text::texts(paths@) == search_list(personal),
{
    let personal = personal_config_path();
    let ghost shown = crate::shared::text::option_text(personal);
    let paths = default_paths(personal);
    assert(crate::shared::text::texts(paths@) == search_list(shown));
    paths
}

/// The files to try, in order: the one the caller names and no other, or the
/// default places where the caller names none.
pub fn candidate_paths(path: Option<String>) -> (paths: Vec<String>)
    ensures
        match path {
            Some(named) => crate::shared::text::texts(paths@) == seq![named@],
            None => exists|personal: Option<Seq<char>>|
                crate::shared::text::texts(paths@) == search_list(personal),
        },
{
    match path {
        Some(named) => {
            let mut paths: Vec<String> = Vec::new();
            paths.push(named);
            assert(crate::shared::text::texts(paths@) =~= seq![named@]);
            paths
        },
        None => get_default_paths(),
    }
}

/// The prefetch count for `concurrency` workers: their number, or the
/// largest count there is where the number is larger than that.
pub open spec fn prefetch_for(concurrency: usize) -> u16 {
    if concurrency > u16::MAX {
        u16::MAX
    } else {
        concurrency as u16
    }
}

/// The prefetch count of a configuration that names `named`, or names none,
/// and runs `concurrency` workers: the count that it names, or else the one
/// for its workers.
pub open spec fn prefetch_of(named: Option<u16>, concurrency: usize) -> u16 {
    match named {
        Some(count) => count,
        None => prefetch_for(concurrency),
    }
}

/// The prefetch count of a configuration that names `named`, or names none,
/// and runs `concurrency` workers.
pub fn effective_prefetch(named: Option<u16>, concurrency: usize) -> (count: u16)
    ensures
        count == prefetch_of(named, concurrency),
{
    match named {
        Some(count) => count,
        None => {
            if concurrency > 0xFFFF {
                0xFFFF
            } else {
                concurrency as u16
            }
        },
    }
}

impl AMQPParams {
    /// The parameters used where a configuration names none, on a host that
    /// runs `parallelism` threads at once: virtual host `/`, no heartbeat, no
    /// consumer timeout, requeue on negative acknowledgment, and a prefetch
    /// count of `prefetch_for(parallelism)`.
    pub fn with_parallelism(parallelism: usize) -> (params: AMQPParams)
        ensures
            params.vhost@ == "/"@,
            params.prefetch == prefetch_for(parallelism),
            params.heartbeat is None,
            params.consumer_timeout is None,
            params.requeue,
    {
        AMQPParams {
            vhost: String::from_str("/"),
            heartbeat: None,
            prefetch: effective_prefetch(None, parallelism),
            consumer_timeout: None,
            requeue: true,
        }
    }
}

impl BusParams {
    /// The broker-backed driver with `AMQPParams::with_parallelism`.
    pub fn with_parallelism(parallelism: usize) -> (params: BusParams)
        ensures
            params matches BusParams::AMQP(amqp) && {
                &&& amqp.vhost@ == "/"@
                &&& amqp.prefetch == prefetch_for(parallelism)
                &&& amqp.heartbeat is None
                &&& amqp.consumer_timeout is None
                &&& amqp.requeue
            },
    {
        BusParams::AMQP(AMQPParams::with_parallelism(parallelism))
    }
}

impl AppConfig {
    /// The configuration used where no file sets a field, on a host that runs
    /// `parallelism` threads at once: topic `mqdish`, connection string
    /// `amqp://`, no credentials, the driver defaults, and one worker per
    /// thread.
    pub fn with_parallelism(parallelism: usize) -> (config: AppConfig)
        ensures
            config.topic@ == "mqdish"@,
            config.connection matches Connection::DSN(dsn) && dsn@ == "amqp://"@,
            config.credentials is Anonymous,
            config.concurrency == parallelism,
            config.bus_params matches BusParams::AMQP(amqp) && {
                &&& amqp.vhost@ == "/"@
                &&& amqp.prefetch == prefetch_for(parallelism)
                &&& amqp.heartbeat is None
                &&& amqp.consumer_timeout is None
                &&& amqp.requeue
            },
    {
        AppConfig {
            topic: String::from_str("mqdish"),
            connection: Connection::DSN(String::from_str("amqp://")),
            credentials: Credentials::Anonymous,
            bus_params: BusParams::with_parallelism(parallelism),
            concurrency: parallelism,
        }
    }
}

impl ConfigError {
    /// The error for a search that opened none of `paths`.
    pub fn not_found(paths: &Vec<String>) -> (e: ConfigError)
        ensures
            e matches ConfigError::NotFound(list)
                && list@ == crate::shared::text::joined(crate::shared::text::texts(paths@), ", "@),
    {
        ConfigError::NotFound(join(paths, ", "))
    }

    /// What the error says to an operator.
    pub fn message(&self) -> (text: String)
        ensures
            self matches ConfigError::NotFound(list)
                && text@ == "No config file found in directories: "@ + list@,
    {
        match self {
            ConfigError::NotFound(list) => {
                let mut text = String::from_str("No config file found in directories: ");
                text.append(list.as_str());
                text
            },
        }
    }
}

} // verus!
