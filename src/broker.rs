use rumqttc::{MqttOptions, OptionError};
use vstd::prelude::*;
use vstd::std_specs::iter::IteratorSpec;
use vstd::string::StringExecFns;

verus! {

#[verifier::external_type_specification]
#[verifier::external_body]
pub struct ExMqttOptions(MqttOptions);

#[verifier::external_type_specification]
#[verifier::external_body]
pub struct ExOptionError(OptionError);

/// Whether rumqttc accepts `url` as a broker URL.
pub uninterp spec fn broker_url_accepted(url: Seq<char>) -> bool;

/// Whether the `url` crate parses `url` as a URL.
pub uninterp spec fn url_parses(url: Seq<char>) -> bool;

/// The query of `url` as the `url` crate decodes it: (key, value) pairs in
/// order.
pub uninterp spec fn url_query(url: Seq<char>) -> Seq<(Seq<char>, Seq<char>)>;

/// The delivery guarantee of one publish or subscription, as MQTT levels
/// them.
#[derive(Debug, Clone, Copy, PartialEq, Eq, Structural)]
pub enum QualityOfService {
    AtMostOnce,
    AtLeastOnce,
    ExactlyOnce,
}

impl Default for QualityOfService {
    /// At least once.
    fn default() -> (r: QualityOfService)
        ensures
            r == QualityOfService::AtLeastOnce,
    {
        QualityOfService::AtLeastOnce
    }
}

/// The largest packet, in bytes, that a managed connection sends or accepts.
pub const MAX_PACKET_SIZE: usize = 100000;

/// The query key under which a broker URL carries the client identifier.
pub open spec fn client_id_marker() -> Seq<char> {
    seq!['?', 'c', 'l', 'i', 'e', 'n', 't', '_', 'i', 'd']
}

/// Whether `p` occurs in `s` as a contiguous run.
pub open spec fn occurs_in(p: Seq<char>, s: Seq<char>) -> bool {
    exists|i: int| 0 <= i && i + p.len() <= s.len() && #[trigger] s.subrange(i, i + p.len()) == p
}

/// The URL a client connects with: the given one when it already names a
/// client identifier, else the given one with `?client_id=<name>` appended.
pub open spec fn url_with_client_id(url: Seq<char>, name: Seq<char>) -> Seq<char> {
    if occurs_in(client_id_marker(), url) {
        url
    } else {
        url + client_id_marker() + seq!['='] + name
    }
}

/// Whether `v`, read as a `u16` the way `str::parse` reads it, is zero: an
/// optional `+` and then one or more `0` digits.
pub open spec fn reads_as_zero(v: Seq<char>) -> bool {
    &&& digits_of(v).len() > 0
    &&& forall|i: int| 0 <= i < digits_of(v).len() ==> #[trigger] digits_of(v)[i] == '0'
}

/// `v` without a leading `+`.
pub open spec fn digits_of(v: Seq<char>) -> Seq<char> {
    if v.len() > 0 && v[0] == '+' {
        v.drop_first()
    } else {
        v
    }
}

/// Whether the query `q` holds the pair (`key`, `value`).
pub open spec fn has_pair(q: Seq<(Seq<char>, Seq<char>)>, key: Seq<char>, value: Seq<char>) -> bool {
    exists|i: int| 0 <= i < q.len() && q[i] == (key, value)
}

/// Whether the query `q` asks rumqttc for options that it refuses by
/// panicking: no message in flight (`inflight_num` zero), or a kept session
/// (`clean_session=false`) for an empty client identifier.
pub open spec fn query_unsupported(q: Seq<(Seq<char>, Seq<char>)>) -> bool {
    (exists|i: int| 0 <= i < q.len() && q[i].0 == "inflight_num"@ && reads_as_zero(#[trigger] q[i].1))
        || (has_pair(q, "client_id"@, Seq::empty()) && has_pair(q, "clean_session"@, "false"@))
}

/// Whether `url` is a broker URL that the library hands to rumqttc: rumqttc
/// accepts it, and its query asks for nothing that rumqttc refuses by
/// panicking.
pub open spec fn usable_broker_url(url: Seq<char>) -> bool {
    &&& broker_url_accepted(url)
    &&& !(url_parses(url) && query_unsupported(url_query(url)))
}

/// Relies on url::Url::parse and Url::query_pairs: whether the text parses
/// as a URL, and the decoded (key, value) pairs of its query, both depending
/// on the text alone.
#[verifier::external_body]
fn decoded_query(url: &str) -> (r: Option<Vec<(String, String)>>)
    ensures
        r is Some == url_parses(url@),
        r matches Some(q) ==> q@.map_values(|p: (String, String)| (p.0@, p.1@)) == url_query(url@),
{
    url::Url::parse(url).ok().map(
        |u| u.query_pairs().map(|(k, v)| (k.into_owned(), v.into_owned())).collect(),
    )
}

/// Relies on rumqttc::MqttOptions::parse_url: the outcome depends on the URL
/// alone. It panics when the query asks for zero messages in flight, or for a
/// kept session with an empty client identifier.
#[verifier::external_body]
fn parse_broker_url(url: &str) -> (r: Result<MqttOptions, OptionError>)
    requires
        url_parses(url@) ==> !query_unsupported(url_query(url@)),
    ensures
        r.is_ok() == broker_url_accepted(url@),
{
    MqttOptions::parse_url(url)
}

/// Relies on rumqttc::MqttOptions::set_max_packet_size to bound incoming and
/// outgoing packets.
#[verifier::external_body]
fn limit_packet_size(options: &mut MqttOptions, incoming: usize, outgoing: usize) {
    options.set_max_packet_size(incoming, outgoing);
}

/// The characters of `s`, in order.
fn chars_of(s: &str) -> (r: Vec<char>)
    ensures
        r@ == s@,
{
    let mut out: Vec<char> = Vec::new();
    let chars = s.chars();
    let ghost all = chars.remaining();
    for c in it: chars
        invariant
            it.seq() == all,
            all == s@,
            out@ == all.take(it.index() as int),
    {
        out.push(c);
        proof {
            assert(out@ =~= all.take(it.index() + 1));
        }
    }
    proof {
        assert(out@ =~= all);
    }
    out
}

/// Whether `p` occurs in `s`.
fn occurs(p: &Vec<char>, s: &Vec<char>) -> (r: bool)
    ensures
        r == occurs_in(p@, s@),
{
    if p.len() > s.len() {
        return false;
    }
    if p.len() == 0 {
        assert(s@.subrange(0, 0 + p@.len() as int) =~= p@);
        return true;
    }
    let last: usize = s.len() - p.len();
    let mut i: usize = 0;
    while i <= last
        invariant
            last == s.len() - p.len(),
            last < s.len(),
            i <= last + 1,
            forall|k: int| 0 <= k < i ==> #[trigger] s@.subrange(k, k + p.len()) != p@,
        decreases last + 1 - i,
    {
        let mut j: usize = 0;
        let mut same = true;
        while j < p.len() && same
            invariant
                i <= last,
                last == s.len() - p.len(),
                j <= p.len(),
                same ==> forall|m: int| 0 <= m < j ==> s@[i + m] == p@[m],
                !same ==> s@.subrange(i as int, i + p.len()) != p@,
            decreases p.len() - j + if same { 1int } else { 0 },
        {
            if s[i + j] != p[j] {
                same = false;
                assert(s@.subrange(i as int, i + p.len())[j as int] != p@[j as int]);
            } else {
                j = j + 1;
            }
        }
        if same {
            assert(s@.subrange(i as int, i + p.len()) =~= p@);
            return true;
        }
        i = i + 1;
    }
    proof {
        assert forall|k: int| 0 <= k && k + p.len() <= s.len() implies #[trigger] s@.subrange(k, k + p.len()) != p@ by {
            assert(k < i);
        }
    }
    false
}

/// The URL that the client `client_name` connects with (see
/// `url_with_client_id`).
pub fn broker_url(client_name: &String, mqtt_url: &String) -> (r: String)
    ensures
        r@ == url_with_client_id(mqtt_url@, client_name@),
{
    let marker = "?client_id";
    proof {
        reveal_strlit("?client_id");
        assert(marker@ =~= client_id_marker());
    }
    if occurs(&chars_of(marker), &chars_of(mqtt_url.as_str())) {
        mqtt_url.clone()
    } else {
        let eq = "=";
        proof {
            reveal_strlit("=");
            assert(eq@ =~= seq!['=']);
        }
        let r = mqtt_url.clone().concat(marker).concat(eq).concat(client_name.as_str());
        r
    }
}

/// Whether `v` reads as the `u16` zero (see `reads_as_zero`).
fn is_zero_text(v: &String) -> (r: bool)
    ensures
        r == reads_as_zero(v@),
{
    let c = chars_of(v.as_str());
    let start: usize = if c.len() > 0 && c[0] == '+' {
        1
    } else {
        0
    };
    let ghost d = digits_of(v@);
    if start >= c.len() {
        return false;
    }
    let mut i: usize = start;
    while i < c.len()
        invariant
            c@ == v@,
            start <= i <= c.len(),
            d == c@.subrange(start as int, c@.len() as int),
            d == digits_of(v@),
            forall|k: int| start <= k < i ==> c@[k] == '0',
        decreases c.len() - i,
    {
        if c[i] != '0' {
            assert(d[i - start] != '0');
            assert(!reads_as_zero(v@));
            return false;
        }
        i = i + 1;
    }
    assert forall|k: int| 0 <= k < d.len() implies d[k] == '0' by {
        assert(d[k] == c@[k + start]);
    }
    true
}

/// Whether the decoded query `q` asks for what rumqttc refuses by panicking
/// (see `query_unsupported`).
fn is_unsupported(q: &Vec<(String, String)>) -> (r: bool)
    ensures
        r == query_unsupported(q@.map_values(|p: (String, String)| (p.0@, p.1@))),
{
    let ghost qv = q@.map_values(|p: (String, String)| (p.0@, p.1@));
    let inflight = String::from_str("inflight_num");
    let client_id = String::from_str("client_id");
    let clean_session = String::from_str("clean_session");
    let no = String::from_str("false");
    let mut zero_inflight = false;
    let mut empty_id = false;
    let mut kept_session = false;
    let mut i: usize = 0;
    while i < q.len()
        invariant
            i <= q.len(),
            qv == q@.map_values(|p: (String, String)| (p.0@, p.1@)),
            inflight@ == "inflight_num"@,
            client_id@ == "client_id"@,
            clean_session@ == "clean_session"@,
            no@ == "false"@,
            zero_inflight == exists|k: int|
                0 <= k < i && qv[k].0 == "inflight_num"@ && reads_as_zero(#[trigger] qv[k].1),
            empty_id == exists|k: int| 0 <= k < i && qv[k] == ("client_id"@, Seq::<char>::empty()),
            kept_session == exists|k: int| 0 <= k < i && qv[k] == ("clean_session"@, "false"@),
        decreases q.len() - i,
    {
        let key = &q[i].0;
        let value = &q[i].1;
        assert(qv[i as int] == (key@, value@));
        let ghost (z0, e0, k0) = (zero_inflight, empty_id, kept_session);
        if *key == inflight && is_zero_text(value) {
            zero_inflight = true;
        }
        if *key == client_id && value.as_str().is_empty() {
            empty_id = true;
        }
        if *key == clean_session && *value == no {
            kept_session = true;
        }
        proof {
            let n = i as int;
            let here_z = qv[n].0 == "inflight_num"@ && reads_as_zero(qv[n].1);
            let here_e = qv[n] == ("client_id"@, Seq::<char>::empty());
            let here_k = qv[n] == ("clean_session"@, "false"@);
            assert(here_e ==> value@.len() == 0);
            assert(value@.len() == 0 && key@ == "client_id"@ ==> value@ =~= Seq::<char>::empty());
            assert(zero_inflight == (z0 || here_z));
            assert(empty_id == (e0 || here_e));
            assert(kept_session == (k0 || here_k));
            if here_z {
                assert(exists|k: int|
                    0 <= k < n + 1 && qv[k].0 == "inflight_num"@ && reads_as_zero(#[trigger] qv[k].1));
            }
            if here_e {
                assert(exists|k: int| 0 <= k < n + 1 && qv[k] == ("client_id"@, Seq::<char>::empty()));
            }
            if here_k {
                assert(exists|k: int| 0 <= k < n + 1 && qv[k] == ("clean_session"@, "false"@));
            }
        }
        i = i + 1;
    }
    zero_inflight || (empty_id && kept_session)
}

/// The connection options for `client_name` at `mqtt_url`: the URL with the
/// client identifier added when it lacks one, parsed by rumqttc, with packets
/// bounded by `MAX_PACKET_SIZE` both ways. `None` when the URL is not usable
/// (see `usable_broker_url`).
pub fn broker_options(client_name: &String, mqtt_url: &String) -> (r: Option<MqttOptions>)
    ensures
        r is Some == usable_broker_url(url_with_client_id(mqtt_url@, client_name@)),
{
    let url = broker_url(client_name, mqtt_url);
    if let Some(q) = decoded_query(url.as_str()) {
        if is_unsupported(&q) {
            return None;
        }
    }
    match parse_broker_url(url.as_str()) {
        Ok(mut options) => {
            limit_packet_size(&mut options, MAX_PACKET_SIZE, MAX_PACKET_SIZE);
            Some(options)
        },
        Err(_) => None,
    }
}

} // verus!
