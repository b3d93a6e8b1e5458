//! Connection and relay management for MQTT brokers.
//!
//! The library keeps the bookkeeping of a set of broker connections: which
//! clients are registered, which topics each follows, whether its event loop
//! still runs, and which downstream subscribers receive its messages. The
//! network work itself (sending packets, polling the event loop, pushing text
//! to a browser) is done by the caller, which hands the outcomes back.
//!
//! It also reads and writes the htmx request and response headers of the web
//! front end.
mod broker;
mod driver;
mod htmx;
mod manager;
mod relay;

pub use broker::{
    broker_options, broker_url, broker_url_accepted, client_id_marker, digits_of, has_pair, occurs_in,
    query_unsupported, reads_as_zero, url_parses, url_query, url_with_client_id,
    usable_broker_url, QualityOfService, MAX_PACKET_SIZE,
};
pub use driver::{classify, ends_connection, BrokerEvent, DriverStep};
pub use htmx::{
    emit, empty_htmx, first_value, flag_field, is_first, opt_view, pairs_view, parse_htmx,
    response_of, text_field, HtmxHeaders, HtmxView,
};
pub use manager::{
    after_register, fresh_client, lemma_register_twice, stays_dead, register_outcome,
    views_of, ClientState, MqttClientManager, RegistryError, Removed,
};
pub use relay::{
    attached_handle, follows, ids_of, last_change_at, last_change_attaches,
    lemma_broadcast_reaches_all, lemma_closure_told_once,
    lemma_membership_follows_changes, pair_map, touches, Membership, MqttClientActor,
    MqttMessage, PublishedEvent, RelayOutput,
};
