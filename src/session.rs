use sdp::description::common::{Address, Attribute, ConnectionInformation};
use sdp::description::media::{MediaName, RangedPort};
use sdp::description::session::{Origin, TimeDescription};
use sdp::{MediaDescription, SessionDescription};
use vstd::prelude::*;

use crate::addr::NetAddr;

verus! {

/// The `o=` line of a description as plain values: user name, session id,
/// session version, network type, address type and unicast address.
#[derive(Debug, Clone)]
pub struct SdpOrigin {
    pub username: String,
    pub session_id: u64,
    pub session_version: u64,
    pub network_type: String,
    pub address_type: String,
    pub unicast_address: String,
}

impl View for SdpOrigin {
    type V = (Seq<char>, u64, u64, Seq<char>, Seq<char>, Seq<char>);

    open spec fn view(&self) -> (Seq<char>, u64, u64, Seq<char>, Seq<char>, Seq<char>) {
        (self.username@, self.session_id, self.session_version, self.network_type@, self.address_type@, self.unicast_address@)
    }
}

/// What reading a session description yields: the session-level connection
/// address and the port of the first media description, each if present,
/// and the origin; or the reader's error message.
pub uninterp spec fn offer_fields(text: Seq<char>) -> Result<
    (Option<Seq<char>>, Option<int>, (Seq<char>, u64, u64, Seq<char>, Seq<char>, Seq<char>)),
    Seq<char>,
>;

/// The parts of a remote offer that the relay uses.
pub struct RemoteOffer {
    pub host: Option<String>,
    pub media_port: Option<isize>,
    pub origin: SdpOrigin,
}

impl RemoteOffer {
    pub open spec fn fields(&self) -> (Option<Seq<char>>, Option<int>, (Seq<char>, u64, u64, Seq<char>, Seq<char>, Seq<char>)) {
        (
            match self.host {
                Some(h) => Some(h@),
                None => None,
            },
            match self.media_port {
                Some(p) => Some(p as int),
                None => None,
            },
            self.origin@,
        )
    }
}

/// Relies on `SessionDescription::try_from(String)` of the sdp crate, which
/// reads the text and fails with an `Error` whose text is kept; the fields
/// are picked from its result.
#[verifier::external_body]
pub(crate) fn read_offer(text: &str) -> (r: Result<RemoteOffer, String>)
    ensures
        match r {
            Ok(o) => offer_fields(text@) == Ok::<_, Seq<char>>(o.fields()),
            Err(e) => offer_fields(text@) is Err && offer_fields(text@)->Err_0 == e@,
        },
{
    match SessionDescription::try_from(text.to_string()) {
        Ok(sd) => Ok(RemoteOffer {
            host: sd.connection_information.as_ref().and_then(|c| c.address.as_ref()).map(|a| a.address.clone()),
            media_port: sd.media_descriptions.first().map(|m| m.media_name.port.value),
            origin: SdpOrigin { username: sd.origin.username, session_id: sd.origin.session_id,
                session_version: sd.origin.session_version, network_type: sd.origin.network_type,
                address_type: sd.origin.address_type, unicast_address: sd.origin.unicast_address },
        }),
        Err(e) => Err(e.to_string()),
    }
}

/// A description with one media section, as plain values: the origin, the
/// session name, the connection line (network type, address type,
/// address), the media line (media, port, protocols, formats) and the
/// media section's attributes (key, optional value). Its timing line is
/// the sdp crate's default one, `t=0 0`.
pub struct SdpDescription {
    pub origin: SdpOrigin,
    pub session_name: String,
    pub net_type: String,
    pub addr_type: String,
    pub address: String,
    pub media: String,
    pub port: isize,
    pub protos: Vec<String>,
    pub formats: Vec<String>,
    pub attributes: Vec<(String, Option<String>)>,
}

/// The views of a list of texts.
pub open spec fn texts(v: Seq<String>) -> Seq<Seq<char>> {
    v.map_values(|t: String| t@)
}

/// The views of a list of attributes.
pub open spec fn attribute_views(v: Seq<(String, Option<String>)>) -> Seq<(Seq<char>, Option<Seq<char>>)> {
    v.map_values(|a: (String, Option<String>)| (a.0@, match a.1 {
        Some(t) => Some(t@),
        None => None,
    }))
}

/// The text the sdp crate writes for a description with the given origin,
/// session name, connection line, media line and media attributes, and the
/// default timing line.
pub uninterp spec fn marshalled(
    origin: (Seq<char>, u64, u64, Seq<char>, Seq<char>, Seq<char>),
    session_name: Seq<char>,
    connection: (Seq<char>, Seq<char>, Seq<char>),
    media: (Seq<char>, int, Seq<Seq<char>>, Seq<Seq<char>>),
    attributes: Seq<(Seq<char>, Option<Seq<char>>)>,
) -> Seq<char>;

/// Relies on `SessionDescription::marshal` of the sdp crate, whose text
/// depends on the description's fields alone; the description is the plain
/// one converted field by field.
#[verifier::external_body]
fn marshal(d: SdpDescription) -> (r: String)
    ensures
        r@ == marshalled(d.origin@, d.session_name@, (d.net_type@, d.addr_type@, d.address@),
            (d.media@, d.port as int, texts(d.protos@), texts(d.formats@)), attribute_views(d.attributes@)),
{
    let SdpOrigin { username, session_id, session_version, network_type, address_type, unicast_address } = d.origin;
    SessionDescription {
        origin: Origin { username, session_id, session_version, network_type, address_type, unicast_address },
        session_name: d.session_name,
        connection_information: Some(ConnectionInformation { network_type: d.net_type, address_type: d.addr_type,
            address: Some(Address { address: d.address, ttl: None, range: None }) }),
        time_descriptions: vec![TimeDescription::default()],
        media_descriptions: vec![MediaDescription {
            media_name: MediaName { media: d.media, port: RangedPort { value: d.port, range: None }, protos: d.protos, formats: d.formats },
            attributes: d.attributes.into_iter().map(|(key, value)| Attribute { key, value }).collect(),
            ..Default::default()
        }],
        ..Default::default()
    }.marshal()
}

/// The digit `d`.
pub open spec fn digit(d: nat) -> char {
    if d == 0 { '0' } else if d == 1 { '1' } else if d == 2 { '2' } else if d == 3 { '3' } else if d == 4 { '4' }
    else if d == 5 { '5' } else if d == 6 { '6' } else if d == 7 { '7' } else if d == 8 { '8' } else { '9' }
}

/// `n` in decimal.
pub open spec fn decimal(n: nat) -> Seq<char>
    decreases n,
{
    if n < 10 {
        seq![digit(n)]
    } else {
        decimal(n / 10).push(digit(n % 10))
    }
}

/// `n` in decimal, with a minus sign when negative.
pub open spec fn signed_decimal(n: int) -> Seq<char> {
    if n < 0 {
        seq!['-'] + decimal((-n) as nat)
    } else {
        decimal(n as nat)
    }
}

fn digit_text(d: u64) -> (r: String)
    requires
        d < 10,
    ensures
        r@ == seq![digit(d as nat)],
{
    proof {
        reveal_strlit("0"); reveal_strlit("1"); reveal_strlit("2"); reveal_strlit("3"); reveal_strlit("4");
        reveal_strlit("5"); reveal_strlit("6"); reveal_strlit("7"); reveal_strlit("8"); reveal_strlit("9");
    }
    let t = if d == 0 { "0" } else if d == 1 { "1" } else if d == 2 { "2" } else if d == 3 { "3" } else if d == 4 { "4" }
        else if d == 5 { "5" } else if d == 6 { "6" } else if d == 7 { "7" } else if d == 8 { "8" } else { "9" };
    let r = String::from_str(t);
    assert(r@ =~= seq![digit(d as nat)]);
    r
}

/// `n` written in decimal.
pub fn decimal_text(n: u64) -> (r: String)
    ensures
        r@ == decimal(n as nat),
    decreases n,
{
    if n < 10 {
        digit_text(n)
    } else {
        let mut s = decimal_text(n / 10);
        let d = digit_text(n % 10);
        s.append(d.as_str());
        assert(s@ =~= decimal(n as nat));
        s
    }
}

/// `n` written in decimal, with a minus sign when negative.
pub fn signed_text(n: isize) -> (r: String)
    ensures
        r@ == signed_decimal(n as int),
{
    if n < 0 {
        let mut s = String::from_str("-");
        let m = decimal_text((-(n as i128)) as u64);
        s.append(m.as_str());
        proof {
            reveal_strlit("-");
        }
        assert(s@ =~= signed_decimal(n as int));
        s
    } else {
        decimal_text(n as u64)
    }
}

/// A codec advertised in an answer's media section.
pub struct Codec {
    pub payload_type: u8,
    pub name: String,
    pub clock_rate: u32,
    pub channels: u16,
    pub fmtp: String,
}

impl View for Codec {
    type V = (u8, Seq<char>, u32, u16, Seq<char>);

    open spec fn view(&self) -> (u8, Seq<char>, u32, u16, Seq<char>) {
        (self.payload_type, self.name@, self.clock_rate, self.channels, self.fmtp@)
    }
}

/// The codecs every answer advertises, in order.
pub open spec fn answer_codec_table() -> Seq<(u8, Seq<char>, u32, u16, Seq<char>)> {
    seq![
        (106u8, "opus"@, 48000u32, 2u16, "sprop-maxcapturerate=16000; minptime=20; useinbandfec=1"@),
        (9u8, "G722"@, 8000u32, 0u16, ""@),
        (0u8, "PCMU"@, 8000u32, 0u16, ""@),
        (8u8, "PCMA"@, 8000u32, 0u16, ""@),
        (3u8, "GSM"@, 8000u32, 0u16, ""@),
        (98u8, "telephone-event"@, 48000u32, 0u16, "0-16"@),
        (101u8, "telephone-event"@, 8000u32, 0u16, "0-16"@),
    ]
}

fn codec(payload_type: u8, name: &str, clock_rate: u32, channels: u16, fmtp: &str) -> (r: Codec)
    ensures
        r@ == (payload_type, name@, clock_rate, channels, fmtp@),
{
    Codec { payload_type, name: String::from_str(name), clock_rate, channels, fmtp: String::from_str(fmtp) }
}

/// The codecs every answer advertises, in order.
pub fn answer_codecs() -> (r: Vec<Codec>)
    ensures
        r@.len() == answer_codec_table().len(),
        forall|i: int| 0 <= i < r@.len() ==> #[trigger] r@[i]@ == answer_codec_table()[i],
{
    let mut v: Vec<Codec> = Vec::new();
    v.push(codec(106, "opus", 48000, 2, "sprop-maxcapturerate=16000; minptime=20; useinbandfec=1"));
    v.push(codec(9, "G722", 8000, 0, ""));
    v.push(codec(0, "PCMU", 8000, 0, ""));
    v.push(codec(8, "PCMA", 8000, 0, ""));
    v.push(codec(3, "GSM", 8000, 0, ""));
    v.push(codec(98, "telephone-event", 48000, 0, "0-16"));
    v.push(codec(101, "telephone-event", 8000, 0, "0-16"));
    v
}

/// The `rtpmap` value of a codec: `<pt> <name>/<clock rate>`, then
/// `/<channels>` when it has channels.
pub open spec fn rtpmap_value(c: (u8, Seq<char>, u32, u16, Seq<char>)) -> Seq<char> {
    decimal(c.0 as nat) + " "@ + c.1 + "/"@ + decimal(c.2 as nat) + if c.3 > 0 {
        "/"@ + decimal(c.3 as nat)
    } else {
        Seq::<char>::empty()
    }
}

/// A codec's attributes: its `rtpmap`, then its `fmtp` when it has one.
pub open spec fn codec_attributes(c: (u8, Seq<char>, u32, u16, Seq<char>)) -> Seq<(Seq<char>, Option<Seq<char>>)> {
    if c.4.len() == 0 {
        seq![("rtpmap"@, Some(rtpmap_value(c)))]
    } else {
        seq![("rtpmap"@, Some(rtpmap_value(c))), ("fmtp"@, Some(decimal(c.0 as nat) + " "@ + c.4))]
    }
}

/// The attributes of codecs, in order.
pub open spec fn codecs_attributes(cs: Seq<(u8, Seq<char>, u32, u16, Seq<char>)>) -> Seq<(Seq<char>, Option<Seq<char>>)>
    decreases cs.len(),
{
    if cs.len() == 0 {
        Seq::empty()
    } else {
        codecs_attributes(cs.drop_last()) + codec_attributes(cs.last())
    }
}

/// The payload types of codecs in decimal, in order.
pub open spec fn codecs_formats(cs: Seq<(u8, Seq<char>, u32, u16, Seq<char>)>) -> Seq<Seq<char>> {
    cs.map_values(|c: (u8, Seq<char>, u32, u16, Seq<char>)| decimal(c.0 as nat))
}

/// The attributes of an answer's media section: the codecs', then
/// `sendrecv`, `rtcp:<rtcp port>` and `rtcp-mux`.
pub open spec fn answer_attributes(rtcp_port: int) -> Seq<(Seq<char>, Option<Seq<char>>)> {
    codecs_attributes(answer_codec_table()) + seq![
        ("sendrecv"@, None::<Seq<char>>),
        ("rtcp"@, Some(signed_decimal(rtcp_port))),
        ("rtcp-mux"@, None::<Seq<char>>),
    ]
}

/// The answer for an offer with origin `origin`: that origin, whose user
/// name also names the session; `c=IN IP4 <addr>`; and one media section
/// `m=audio <rtp port> RTP/AVP` with the fixed codecs and
/// `answer_attributes(rtcp port)`.
pub open spec fn answer_text(origin: (Seq<char>, u64, u64, Seq<char>, Seq<char>, Seq<char>), addr: Seq<char>, rtp_port: int, rtcp_port: int) -> Seq<char> {
    marshalled(
        origin,
        origin.0,
        ("IN"@, "IP4"@, addr),
        ("audio"@, rtp_port, seq!["RTP"@, "AVP"@], codecs_formats(answer_codec_table())),
        answer_attributes(rtcp_port),
    )
}

/// What an answer is generated from.
pub struct SdpConfig {
    pub origin: SdpOrigin,
    pub addr: String,
    pub rtp_port: isize,
    pub rtcp_port: isize,
}

/// Writes the answer described by `answer_text`.
pub fn generate_sdp(cfg: SdpConfig) -> (r: String)
    ensures
        r@ == answer_text(cfg.origin@, cfg.addr@, cfg.rtp_port as int, cfg.rtcp_port as int),
{
    let codecs = answer_codecs();
    let ghost table = answer_codec_table();
    let mut formats: Vec<String> = Vec::new();
    let mut attributes: Vec<(String, Option<String>)> = Vec::new();
    let mut i: usize = 0;
    while i < codecs.len()
        invariant
            i <= codecs@.len(),
            codecs@.len() == table.len(),
            forall|j: int| 0 <= j < codecs@.len() ==> #[trigger] codecs@[j]@ == table[j],
            texts(formats@) == codecs_formats(table.take(i as int)),
            attribute_views(attributes@) == codecs_attributes(table.take(i as int)),
        decreases codecs@.len() - i,
    {
        let c = &codecs[i];
        let ghost cv = table[i as int];
        assert(c@ == cv);
        let pt = decimal_text(c.payload_type as u64);
        let mut rtpmap = decimal_text(c.payload_type as u64);
        rtpmap.append(" ");
        rtpmap.append(c.name.as_str());
        rtpmap.append("/");
        let rate = decimal_text(c.clock_rate as u64);
        rtpmap.append(rate.as_str());
        if c.channels > 0 {
            rtpmap.append("/");
            let ch = decimal_text(c.channels as u64);
            rtpmap.append(ch.as_str());
        }
        assert(rtpmap@ =~= rtpmap_value(cv));
        let ghost before = attributes@;
        attributes.push((String::from_str("rtpmap"), Some(rtpmap)));
        if c.fmtp.as_str().unicode_len() > 0 {
            let mut fmtp = decimal_text(c.payload_type as u64);
            fmtp.append(" ");
            fmtp.append(c.fmtp.as_str());
            attributes.push((String::from_str("fmtp"), Some(fmtp)));
        }
        let ghost fb = formats@;
        formats.push(pt);
        proof {
            assert(table.take(i + 1).drop_last() == table.take(i as int));
            assert(table.take(i + 1).last() == cv);
            assert(attribute_views(attributes@) =~= attribute_views(before) + codec_attributes(cv));
            assert(texts(formats@) =~= texts(fb).push(decimal(cv.0 as nat)));
            assert(codecs_formats(table.take(i + 1)) =~= codecs_formats(table.take(i as int)).push(decimal(cv.0 as nat)));
            assert(texts(formats@) =~= codecs_formats(table.take(i + 1)));
        }
        i = i + 1;
    }
    proof {
        assert(table.take(table.len() as int) == table);
    }
    let ghost before = attributes@;
    attributes.push((String::from_str("sendrecv"), None));
    attributes.push((String::from_str("rtcp"), Some(signed_text(cfg.rtcp_port))));
    attributes.push((String::from_str("rtcp-mux"), None));
    assert(attribute_views(attributes@) =~= answer_attributes(cfg.rtcp_port as int));
    let mut protos: Vec<String> = Vec::new();
    protos.push(String::from_str("RTP"));
    protos.push(String::from_str("AVP"));
    assert(texts(protos@) =~= seq!["RTP"@, "AVP"@]);
    let session_name = cfg.origin.username.clone();
    marshal(SdpDescription {
        origin: cfg.origin,
        session_name,
        net_type: String::from_str("IN"),
        addr_type: String::from_str("IP4"),
        address: cfg.addr,
        media: String::from_str("audio"),
        port: cfg.rtp_port,
        protos,
        formats,
        attributes,
    })
}

/// The error for an offer without a session-level connection address.
pub open spec fn no_connection_text() -> Seq<char> {
    "session description has no connection address"@
}

/// The error for an offer without a media description.
pub open spec fn no_media_text() -> Seq<char> {
    "session description has no media description"@
}

/// The error for an offer whose media port is not a port number.
pub open spec fn bad_media_port_text() -> Seq<char> {
    "session description has an invalid media port"@
}

fn no_connection() -> (r: String)
    ensures
        r@ == no_connection_text(),
{
    String::from_str("session description has no connection address")
}

fn no_media() -> (r: String)
    ensures
        r@ == no_media_text(),
{
    String::from_str("session description has no media description")
}

fn bad_media_port() -> (r: String)
    ensures
        r@ == bad_media_port_text(),
{
    String::from_str("session description has an invalid media port")
}

/// The origin of a readable offer.
pub open spec fn offer_origin(text: Seq<char>) -> (Seq<char>, u64, u64, Seq<char>, Seq<char>, Seq<char>) {
    offer_fields(text)->Ok_0.2
}

/// Where the media of an offer goes, or why the offer is refused.
pub open spec fn offer_address(text: Seq<char>) -> Result<(Seq<char>, u16), Seq<char>> {
    match offer_fields(text) {
        Err(e) => Err(e),
        Ok((host, port, _)) => match host {
            None => Err(no_connection_text()),
            Some(h) => match port {
                None => Err(no_media_text()),
                Some(p) => if 0 <= p <= u16::MAX {
                    Ok((h, p as u16))
                } else {
                    Err(bad_media_port_text())
                },
            },
        },
    }
}

/// Reads a remote offer and answers it: the remote forwarding address is
/// the offer's connection address and first media port; the answer carries
/// `ip` and `rtp` (as media and RTCP port) and the offer's origin.
pub fn get_sdp(sdp: &str, ip: &str, rtp: u16) -> (r: Result<(NetAddr, String), String>)
    ensures
        match r {
            Ok((a, answer)) => {
                &&& offer_address(sdp@) == Ok::<_, Seq<char>>(a@)
                &&& answer@ == answer_text(offer_origin(sdp@), ip@, rtp as int, rtp as int)
            },
            Err(e) => offer_address(sdp@) == Err::<(Seq<char>, u16), _>(e@),
        },
{
    match read_offer(sdp) {
        Err(e) => Err(e),
        Ok(offer) => {
            let host = match offer.host {
                Some(h) => h,
                None => return Err(no_connection()),
            };
            let port = match offer.media_port {
                Some(p) => p,
                None => return Err(no_media()),
            };
            if port < 0 || port > 65535 {
                return Err(bad_media_port());
            }
            let answer = generate_sdp(
                SdpConfig { origin: offer.origin, addr: String::from_str(ip), rtp_port: rtp as isize, rtcp_port: rtp as isize },
            );
            Ok((NetAddr::new(host, port as u16), answer))
        },
    }
}

} // verus!
