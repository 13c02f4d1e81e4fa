//! The DHCP/BOOTP message codec: a byte-exact binary encoding of the fixed
//! header, the magic cookie and the variable-length option area, together
//! with the decoder and the laws that relate the two.
//!
//! Duplicate option codes in an incoming packet are rejected as malformed
//! (`CodecError::DuplicateOption`); the alternative "last occurrence wins"
//! policy was deliberately not chosen, so that `decode` never silently
//! discards data.

use vstd::prelude::*;

verus! {

/// Byte offset where the option area starts: the 236-byte fixed header
/// followed by the 4-byte magic cookie.
pub const OPTIONS_OFFSET: usize = 240;

/// Length of the `chaddr` (client hardware address) field.
pub const CHADDR_LEN: usize = 16;

/// Length of the `sname` (server host name) field.
pub const SNAME_LEN: usize = 64;

/// Length of the `file` (boot file name) field.
pub const FILE_LEN: usize = 128;

/// Option code used as padding between options; carries no payload.
pub const OPTION_PAD: u8 = 0;

/// Option code terminating the option area.
pub const OPTION_END: u8 = 255;

/// Option carrying the DHCP message type.
pub const OPTION_MESSAGE_TYPE: u8 = 53;

/// Option carrying the address a client asks for.
pub const OPTION_REQUESTED_ADDRESS: u8 = 50;

/// Option carrying the offered or granted lease time in seconds.
pub const OPTION_LEASE_TIME: u8 = 51;

/// Option carrying the server identifier address.
pub const OPTION_SERVER_ID: u8 = 54;

/// DHCP message type values carried in `OPTION_MESSAGE_TYPE`.
pub const MSG_DISCOVER: u8 = 1;

pub const MSG_OFFER: u8 = 2;

pub const MSG_REQUEST: u8 = 3;

pub const MSG_DECLINE: u8 = 4;

pub const MSG_ACK: u8 = 5;

pub const MSG_NAK: u8 = 6;

pub const MSG_RELEASE: u8 = 7;

pub const MSG_INFORM: u8 = 8;

/// BOOTP opcode of a message.
#[derive(Clone, Copy, Debug, PartialEq, Eq, Structural)]
pub enum OperationCode {
    Undefined,
    BootRequest,
    BootReply,
}

/// The wire byte standing for an opcode.
pub open spec fn op_code_byte(op: OperationCode) -> u8 {
    match op {
        OperationCode::Undefined => 0u8,
        OperationCode::BootRequest => 1u8,
        OperationCode::BootReply => 2u8,
    }
}

/// The opcode a wire byte stands for; unknown bytes give `Undefined`.
pub open spec fn op_code_of_byte(b: u8) -> OperationCode {
    if b == 1 {
        OperationCode::BootRequest
    } else if b == 2 {
        OperationCode::BootReply
    } else {
        OperationCode::Undefined
    }
}

impl From<u8> for OperationCode {
    fn from(value: u8) -> (r: Self) {
        match value {
            1u8 => OperationCode::BootRequest,
            2u8 => OperationCode::BootReply,
            _ => OperationCode::Undefined,
        }
    }
}

impl vstd::std_specs::convert::FromSpecImpl<u8> for OperationCode {
    open spec fn obeys_from_spec() -> bool {
        true
    }

    open spec fn from_spec(value: u8) -> Self {
        op_code_of_byte(value)
    }
}

impl OperationCode {
    /// The opcode's wire byte, the inverse of `From<u8>` on known codes.
    pub fn to_byte(self) -> (r: u8)
        ensures
            r == op_code_byte(self),
    {
        match self {
            OperationCode::Undefined => 0,
            OperationCode::BootRequest => 1,
            OperationCode::BootReply => 2,
        }
    }
}

/// One option of the variable-length area: a code and its raw payload.
/// Codes the engines do not understand are carried through opaquely.
#[derive(Debug, PartialEq, Eq)]
pub struct DhcpOption {
    pub code: u8,
    pub data: Vec<u8>,
}

/// Mathematical image of a `DhcpOption`.
#[verifier::ext_equal]
pub struct OptionView {
    pub code: u8,
    pub data: Seq<u8>,
}

impl View for DhcpOption {
    type V = OptionView;

    open spec fn view(&self) -> OptionView {
        OptionView { code: self.code, data: self.data@ }
    }
}

/// The views of a sequence of options.
pub open spec fn options_view(opts: Seq<DhcpOption>) -> Seq<OptionView> {
    opts.map_values(|o: DhcpOption| o@)
}

/// A decoded DHCP/BOOTP message. Addresses are IPv4 addresses as
/// big-endian `u32` values; `chaddr`, `sname` and `file` are the legacy
/// fixed-size fields, kept at their full wire length.
#[derive(Debug, PartialEq, Eq)]
pub struct Message {
    pub operation_code: OperationCode,
    pub hardware_type: u8,
    pub hardware_length: u8,
    pub hops: u8,
    pub transaction_id: u32,
    pub seconds: u16,
    pub broadcast: bool,
    pub client_address: u32,
    pub your_address: u32,
    pub server_address: u32,
    pub gateway_address: u32,
    pub chaddr: Vec<u8>,
    pub sname: Vec<u8>,
    pub file: Vec<u8>,
    pub options: Vec<DhcpOption>,
}

/// Mathematical image of a `Message`.
#[verifier::ext_equal]
pub struct MessageView {
    pub operation_code: OperationCode,
    pub hardware_type: u8,
    pub hardware_length: u8,
    pub hops: u8,
    pub transaction_id: u32,
    pub seconds: u16,
    pub broadcast: bool,
    pub client_address: u32,
    pub your_address: u32,
    pub server_address: u32,
    pub gateway_address: u32,
    pub chaddr: Seq<u8>,
    pub sname: Seq<u8>,
    pub file: Seq<u8>,
    pub options: Seq<OptionView>,
}

impl View for Message {
    type V = MessageView;

    open spec fn view(&self) -> MessageView {
        MessageView {
            operation_code: self.operation_code,
            hardware_type: self.hardware_type,
            hardware_length: self.hardware_length,
            hops: self.hops,
            transaction_id: self.transaction_id,
            seconds: self.seconds,
            broadcast: self.broadcast,
            client_address: self.client_address,
            your_address: self.your_address,
            server_address: self.server_address,
            gateway_address: self.gateway_address,
            chaddr: self.chaddr@,
            sname: self.sname@,
            file: self.file@,
            options: options_view(self.options@),
        }
    }
}

/// Why a buffer was rejected by `decode`.
#[derive(Clone, Copy, Debug, PartialEq, Eq, Structural)]
pub enum CodecError {
    /// Shorter than the fixed header plus the magic cookie.
    TooShort,
    /// The four bytes after the fixed header are not the magic cookie.
    InvalidCookie,
    /// An option's declared length runs past the buffer end, or the option
    /// area ends without a terminator.
    Truncated,
    /// The same option code occurs twice.
    DuplicateOption,
}

/// The two big-endian bytes of a `u16`.
pub open spec fn be16_bytes(x: u16) -> Seq<u8> {
    seq![(x >> 8) as u8, (x & 0xff) as u8]
}

/// The `u16` read from two big-endian bytes.
pub open spec fn be16_val(b0: u8, b1: u8) -> u16 {
    (((b0 as u16) << 8) | (b1 as u16)) as u16
}

/// The four big-endian bytes of a `u32`.
pub open spec fn be32_bytes(x: u32) -> Seq<u8> {
    seq![
        ((x >> 24) & 0xff) as u8,
        ((x >> 16) & 0xff) as u8,
        ((x >> 8) & 0xff) as u8,
        (x & 0xff) as u8,
    ]
}

/// The `u32` read from four big-endian bytes.
pub open spec fn be32_val(b0: u8, b1: u8, b2: u8, b3: u8) -> u32 {
    (((b0 as u32) << 24) | ((b1 as u32) << 16) | ((b2 as u32) << 8) | (b3 as u32)) as u32
}

/// Reading back the big-endian bytes of a `u16` yields the value.
pub proof fn lemma_be16_round_trip(x: u16)
    ensures
        be16_val(be16_bytes(x)[0], be16_bytes(x)[1]) == x,
{
    assert((((((x >> 8) as u8) as u16) << 8) | (((x & 0xff) as u8) as u16)) == x) by (bit_vector);
}

/// Reading back the big-endian bytes of a `u32` yields the value.
pub proof fn lemma_be32_round_trip(x: u32)
    ensures
        be32_val(be32_bytes(x)[0], be32_bytes(x)[1], be32_bytes(x)[2], be32_bytes(x)[3]) == x,
{
    assert(((((((x >> 24) & 0xff) as u8) as u32) << 24) | (((((x >> 16) & 0xff) as u8) as u32)
        << 16) | (((((x >> 8) & 0xff) as u8) as u32) << 8) | (((x & 0xff) as u8) as u32)) == x)
        by (bit_vector);
}

/// The two flag bytes; only the high bit (broadcast) is meaningful.
pub open spec fn flags_bytes(broadcast: bool) -> Seq<u8> {
    seq![if broadcast { 0x80u8 } else { 0u8 }, 0u8]
}

/// Whether the high bit of the first flags byte is set.
pub open spec fn broadcast_of_byte(b: u8) -> bool {
    b & 0x80 != 0
}

/// The four-byte magic cookie opening the option area.
pub open spec fn magic_cookie() -> Seq<u8> {
    seq![99u8, 130u8, 83u8, 99u8]
}

/// The wire bytes of one option: code, payload length, payload.
pub open spec fn encoded_option(o: OptionView) -> Seq<u8> {
    seq![o.code, o.data.len() as u8] + o.data
}

/// The wire bytes of a whole option list, in the order supplied.
pub open spec fn encoded_options(opts: Seq<OptionView>) -> Seq<u8>
    decreases opts.len(),
{
    if opts.len() == 0 {
        Seq::empty()
    } else {
        encoded_option(opts[0]) + encoded_options(opts.drop_first())
    }
}

/// The 236 fixed header bytes at their canonical offsets.
pub open spec fn encoded_header(m: MessageView) -> Seq<u8> {
    seq![op_code_byte(m.operation_code), m.hardware_type, m.hardware_length, m.hops]
        + be32_bytes(m.transaction_id) + be16_bytes(m.seconds) + flags_bytes(m.broadcast)
        + be32_bytes(m.client_address) + be32_bytes(m.your_address) + be32_bytes(m.server_address)
        + be32_bytes(m.gateway_address) + m.chaddr + m.sname + m.file
}

/// The full encoding: header, cookie, options, terminator.
pub open spec fn spec_encode(m: MessageView) -> Seq<u8> {
    encoded_header(m) + magic_cookie() + encoded_options(m.options) + seq![OPTION_END]
}

/// An option that can stand in the option area: its code is neither the
/// pad nor the end code, and its payload fits the one length byte.
pub open spec fn option_wf(o: OptionView) -> bool {
    &&& o.code != OPTION_PAD
    &&& o.code != OPTION_END
    &&& o.data.len() <= 255
}

/// No option code occurs twice.
pub open spec fn unique_option_codes(opts: Seq<OptionView>) -> bool {
    forall|i: int, j: int|
        0 <= i < j < opts.len() ==> (#[trigger] opts[i]).code != (#[trigger] opts[j]).code
}

/// A message the codec round-trips exactly: the legacy fields at their
/// wire lengths, every option well formed, option codes unique.
pub open spec fn message_wf(m: MessageView) -> bool {
    &&& m.chaddr.len() == CHADDR_LEN
    &&& m.sname.len() == SNAME_LEN
    &&& m.file.len() == FILE_LEN
    &&& (forall|i: int| 0 <= i < m.options.len() ==> option_wf(#[trigger] m.options[i]))
    &&& unique_option_codes(m.options)
}

/// Parse the option area of `b` from offset `i` on: stop at the end code,
/// skip pad codes, and fail with `Truncated` when a declared length runs
/// past the end or the area ends without a terminator.
pub open spec fn spec_parse_options(b: Seq<u8>, i: int) -> Result<Seq<OptionView>, CodecError>
    decreases b.len() - i,
{
    if i < 0 || i >= b.len() {
        Err(CodecError::Truncated)
    } else if b[i] == OPTION_END {
        Ok(Seq::empty())
    } else if b[i] == OPTION_PAD {
        spec_parse_options(b, i + 1)
    } else if i + 2 > b.len() {
        Err(CodecError::Truncated)
    } else if i + 2 + (b[i + 1] as int) > b.len() {
        Err(CodecError::Truncated)
    } else {
        match spec_parse_options(b, i + 2 + (b[i + 1] as int)) {
            Ok(rest) => Ok(
                seq![OptionView { code: b[i], data: b.subrange(i + 2, i + 2 + (b[i + 1] as int)) }]
                    + rest,
            ),
            Err(e) => Err(e),
        }
    }
}

/// The header fields of a buffer of at least 240 bytes, as a message view
/// with the given options.
pub open spec fn spec_header_view(b: Seq<u8>, opts: Seq<OptionView>) -> MessageView {
    MessageView {
        operation_code: op_code_of_byte(b[0]),
        hardware_type: b[1],
        hardware_length: b[2],
        hops: b[3],
        transaction_id: be32_val(b[4], b[5], b[6], b[7]),
        seconds: be16_val(b[8], b[9]),
        broadcast: broadcast_of_byte(b[10]),
        client_address: be32_val(b[12], b[13], b[14], b[15]),
        your_address: be32_val(b[16], b[17], b[18], b[19]),
        server_address: be32_val(b[20], b[21], b[22], b[23]),
        gateway_address: be32_val(b[24], b[25], b[26], b[27]),
        chaddr: b.subrange(28, 44),
        sname: b.subrange(44, 108),
        file: b.subrange(108, 236),
        options: opts,
    }
}

/// What `decode` returns on any buffer.
pub open spec fn spec_decode(b: Seq<u8>) -> Result<MessageView, CodecError> {
    if b.len() < 240 {
        Err(CodecError::TooShort)
    } else if b.subrange(236, 240) != magic_cookie() {
        Err(CodecError::InvalidCookie)
    } else {
        match spec_parse_options(b, 240) {
            Ok(opts) => if unique_option_codes(opts) {
                Ok(spec_header_view(b, opts))
            } else {
                Err(CodecError::DuplicateOption)
            },
            Err(e) => Err(e),
        }
    }
}

fn push_be16(out: &mut Vec<u8>, x: u16)
    ensures
        final(out)@ == old(out)@ + be16_bytes(x),
{
    proof {
        assert(x >> 8 < 256 && x & 0xff < 256) by (bit_vector);
    }
    out.push((x >> 8) as u8);
    out.push((x & 0xff) as u8);
    assert(final(out)@ =~= old(out)@ + be16_bytes(x));
}

fn push_be32(out: &mut Vec<u8>, x: u32)
    ensures
        final(out)@ == old(out)@ + be32_bytes(x),
{
    proof {
        assert((x >> 24) & 0xff < 256 && (x >> 16) & 0xff < 256 && (x >> 8) & 0xff < 256 && x & 0xff
            < 256) by (bit_vector);
    }
    out.push(((x >> 24) & 0xff) as u8);
    out.push(((x >> 16) & 0xff) as u8);
    out.push(((x >> 8) & 0xff) as u8);
    out.push((x & 0xff) as u8);
    assert(final(out)@ =~= old(out)@ + be32_bytes(x));
}

fn push_bytes(out: &mut Vec<u8>, src: &Vec<u8>)
    ensures
        final(out)@ == old(out)@ + src@,
{
    let mut j: usize = 0;
    while j < src.len()
        invariant
            j <= src.len(),
            out@ == old(out)@ + src@.subrange(0, j as int),
        decreases src.len() - j,
    {
        out.push(src[j]);
        j = j + 1;
        assert(out@ =~= old(out)@ + src@.subrange(0, j as int));
    }
    assert(final(out)@ =~= old(out)@ + src@);
}

/// Appending one more option extends the encoded option area by the
/// encoding of that option.
proof fn lemma_encoded_options_snoc(s: Seq<OptionView>, o: OptionView)
    ensures
        encoded_options(s.push(o)) == encoded_options(s) + encoded_option(o),
    decreases s.len(),
{
    if s.len() == 0 {
        let t = s.push(o);
        assert(t[0] == o);
        assert(t.drop_first() =~= Seq::<OptionView>::empty());
        assert(encoded_options(t.drop_first()) == Seq::<u8>::empty());
        assert(encoded_options(t) == encoded_option(o) + Seq::<u8>::empty());
        assert(encoded_options(s) == Seq::<u8>::empty());
        assert(encoded_option(o) + Seq::<u8>::empty() =~= Seq::<u8>::empty() + encoded_option(o));
    } else {
        assert(s.push(o).drop_first() =~= s.drop_first().push(o));
        lemma_encoded_options_snoc(s.drop_first(), o);
        assert(encoded_options(s.push(o)) =~= encoded_options(s) + encoded_option(o));
    }
}

/// Encode a message to its exact wire bytes: the fixed header at its
/// canonical offsets, the magic cookie, the options in the order supplied,
/// and the terminator.
pub fn encode(m: &Message) -> (out: Vec<u8>)
    requires
        message_wf(m@),
    ensures
        out@ == spec_encode(m@),
{
    let mut out: Vec<u8> = Vec::new();
    out.push(m.operation_code.to_byte());
    out.push(m.hardware_type);
    out.push(m.hardware_length);
    out.push(m.hops);
    push_be32(&mut out, m.transaction_id);
    push_be16(&mut out, m.seconds);
    if m.broadcast {
        out.push(0x80);
    } else {
        out.push(0);
    }
    out.push(0);
    push_be32(&mut out, m.client_address);
    push_be32(&mut out, m.your_address);
    push_be32(&mut out, m.server_address);
    push_be32(&mut out, m.gateway_address);
    push_bytes(&mut out, &m.chaddr);
    push_bytes(&mut out, &m.sname);
    push_bytes(&mut out, &m.file);
    assert(out@ =~= encoded_header(m@));
    out.push(99);
    out.push(130);
    out.push(83);
    out.push(99);
    assert(out@ =~= encoded_header(m@) + magic_cookie());
    let mut k: usize = 0;
    while k < m.options.len()
        invariant
            k <= m.options.len(),
            message_wf(m@),
            out@ == encoded_header(m@) + magic_cookie() + encoded_options(
                m@.options.subrange(0, k as int),
            ),
        decreases m.options.len() - k,
    {
        let o = &m.options[k];
        assert(o@ == m@.options[k as int]);
        out.push(o.code);
        out.push(o.data.len() as u8);
        push_bytes(&mut out, &o.data);
        proof {
            lemma_encoded_options_snoc(m@.options.subrange(0, k as int), o@);
            assert(m@.options.subrange(0, k + 1 as int) =~= m@.options.subrange(0, k as int).push(
                o@,
            ));
            assert(out@ =~= encoded_header(m@) + magic_cookie() + encoded_options(
                m@.options.subrange(0, k + 1 as int),
            ));
        }
        k = k + 1;
    }
    assert(m@.options.subrange(0, m.options.len() as int) =~= m@.options);
    out.push(OPTION_END);
    assert(out@ =~= spec_encode(m@));
    out
}

fn read_be32(b: &Vec<u8>, i: usize) -> (r: u32)
    requires
        i + 4 <= b@.len(),
    ensures
        r == be32_val(b@[i as int], b@[i + 1], b@[i + 2], b@[i + 3]),
{
    let n = b.len();
    assert(i + 4 <= n);
    ((b[i] as u32) << 24) | ((b[i + 1] as u32) << 16) | ((b[i + 2] as u32) << 8) | (b[i + 3] as u32)
}

fn copy_range(b: &Vec<u8>, from: usize, to: usize) -> (r: Vec<u8>)
    requires
        from <= to <= b@.len(),
    ensures
        r@ == b@.subrange(from as int, to as int),
{
    let mut r: Vec<u8> = Vec::new();
    let mut j: usize = from;
    while j < to
        invariant
            from <= j <= to <= b@.len(),
            r@ == b@.subrange(from as int, j as int),
        decreases to - j,
    {
        r.push(b[j]);
        j = j + 1;
        assert(r@ =~= b@.subrange(from as int, j as int));
    }
    r
}

/// Glue a freshly parsed prefix onto the result of parsing the remainder.
pub open spec fn combine_parsed(acc: Seq<OptionView>, r: Result<Seq<OptionView>, CodecError>) -> Result<
    Seq<OptionView>,
    CodecError,
> {
    match r {
        Ok(rest) => Ok(acc + rest),
        Err(e) => Err(e),
    }
}

proof fn lemma_combine_step(acc: Seq<OptionView>, o: OptionView, r: Result<Seq<OptionView>, CodecError>)
    ensures
        combine_parsed(acc, combine_parsed(seq![o], r)) == combine_parsed(acc.push(o), r),
{
    match r {
        Ok(rest) => {
            assert(acc + (seq![o] + rest) =~= acc.push(o) + rest);
        },
        Err(_) => {},
    }
}

fn options_duplicate(opts: &Vec<DhcpOption>) -> (r: bool)
    ensures
        r == !unique_option_codes(options_view(opts@)),
{
    let n = opts.len();
    let mut x: usize = 0;
    while x < n
        invariant
            x <= n == opts@.len(),
            forall|i: int, j: int|
                0 <= i < j < opts@.len() && i < x ==> (#[trigger] opts@[i])@.code != (
                #[trigger] opts@[j])@.code,
        decreases n - x,
    {
        let mut y: usize = x + 1;
        while y < n
            invariant
                x < y <= n == opts@.len(),
                forall|j: int| x < j < y ==> opts@[x as int]@.code != (#[trigger] opts@[j])@.code,
            decreases n - y,
        {
            if opts[y].code == opts[x].code {
                proof {
                    assert(options_view(opts@)[x as int] == opts@[x as int]@);
                    assert(options_view(opts@)[y as int] == opts@[y as int]@);
                    assert(!unique_option_codes(options_view(opts@)));
                }
                return true;
            }
            y = y + 1;
        }
        x = x + 1;
    }
    proof {
        assert forall|i: int, j: int| 0 <= i < j < opts@.len() implies (#[trigger] options_view(
            opts@,
        )[i]).code != (#[trigger] options_view(opts@)[j]).code by {
            assert(options_view(opts@)[i] == opts@[i]@);
            assert(options_view(opts@)[j] == opts@[j]@);
        }
    }
    false
}

/// Decode a buffer, returning exactly what `spec_decode` says: the header
/// fields at their canonical offsets and the parsed option list, or the
/// error `spec_decode` gives. A decoded message is itself well formed.
pub fn decode(b: &Vec<u8>) -> (r: Result<Message, CodecError>)
    ensures
        match r {
            Ok(m) => spec_decode(b@) == Ok::<MessageView, CodecError>(m@) && message_wf(m@),
            Err(e) => spec_decode(b@) == Err::<MessageView, CodecError>(e),
        },
{
    if b.len() < 240 {
        return Err(CodecError::TooShort);
    }
    if !(b[236] == 99 && b[237] == 130 && b[238] == 83 && b[239] == 99) {
        assert(b@.subrange(236, 240) != magic_cookie());
        return Err(CodecError::InvalidCookie);
    }
    assert(b@.subrange(236, 240) =~= magic_cookie());

    let mut opts: Vec<DhcpOption> = Vec::new();
    let mut i: usize = 240;
    loop
        invariant_except_break
            240 <= i <= b@.len(),
            b@.subrange(236, 240) == magic_cookie(),
            spec_parse_options(b@, 240) == combine_parsed(
                options_view(opts@),
                spec_parse_options(b@, i as int),
            ),
            forall|k: int| 0 <= k < opts@.len() ==> option_wf((#[trigger] opts@[k])@),
        ensures
            spec_parse_options(b@, 240) == Ok::<Seq<OptionView>, CodecError>(options_view(opts@)),
            forall|k: int| 0 <= k < opts@.len() ==> option_wf((#[trigger] opts@[k])@),
        decreases b@.len() - i,
    {
        if i >= b.len() {
            assert(spec_parse_options(b@, i as int) == Err::<Seq<OptionView>, CodecError>(
                CodecError::Truncated,
            ));
            return Err(CodecError::Truncated);
        }
        let code = b[i];
        if code == OPTION_END {
            proof {
                assert(spec_parse_options(b@, i as int) == Ok::<Seq<OptionView>, CodecError>(
                    Seq::empty(),
                ));
                assert(options_view(opts@) + Seq::<OptionView>::empty() =~= options_view(opts@));
            }
            break;
        }
        if code == OPTION_PAD {
            proof {
                assert(spec_parse_options(b@, i as int) == spec_parse_options(b@, i + 1));
            }
            i = i + 1;
            continue;
        }
        if b.len() - i < 2 {
            assert(spec_parse_options(b@, i as int) == Err::<Seq<OptionView>, CodecError>(
                CodecError::Truncated,
            ));
            return Err(CodecError::Truncated);
        }
        let dlen = b[i + 1] as usize;
        if b.len() - (i + 2) < dlen {
            assert(spec_parse_options(b@, i as int) == Err::<Seq<OptionView>, CodecError>(
                CodecError::Truncated,
            ));
            return Err(CodecError::Truncated);
        }
        let data = copy_range(b, i + 2, i + 2 + dlen);
        let parsed = DhcpOption { code, data };
        proof {
            let rest = spec_parse_options(b@, i + 2 + (b@[i as int + 1] as int));
            assert(spec_parse_options(b@, i as int) == combine_parsed(seq![parsed@], rest));
            lemma_combine_step(options_view(opts@), parsed@, rest);
            assert(options_view(opts@.push(parsed)) =~= options_view(opts@).push(parsed@));
        }
        opts.push(parsed);
        i = i + 2 + dlen;
    }

    proof {
        assert forall|k: int| 0 <= k < options_view(opts@).len() implies option_wf(
            #[trigger] options_view(opts@)[k],
        ) by {
            assert(options_view(opts@)[k] == opts@[k]@);
        }
    }
    if options_duplicate(&opts) {
        return Err(CodecError::DuplicateOption);
    }

    let m = Message {
        operation_code: OperationCode::from(b[0]),
        hardware_type: b[1],
        hardware_length: b[2],
        hops: b[3],
        transaction_id: read_be32(b, 4),
        seconds: ((b[8] as u16) << 8) | (b[9] as u16),
        broadcast: b[10] & 0x80 != 0,
        client_address: read_be32(b, 12),
        your_address: read_be32(b, 16),
        server_address: read_be32(b, 20),
        gateway_address: read_be32(b, 24),
        chaddr: copy_range(b, 28, 44),
        sname: copy_range(b, 44, 108),
        file: copy_range(b, 108, 236),
        options: opts,
    };
    assert(m@ =~= spec_header_view(b@, options_view(m.options@)));
    Ok(m)
}

proof fn lemma_parse_encoded(b: Seq<u8>, i: int, opts: Seq<OptionView>)
    requires
        0 <= i <= b.len(),
        forall|k: int| 0 <= k < opts.len() ==> option_wf(#[trigger] opts[k]),
        b.subrange(i, b.len() as int) == encoded_options(opts) + seq![OPTION_END],
    ensures
        spec_parse_options(b, i) == Ok::<Seq<OptionView>, CodecError>(opts),
    decreases opts.len(),
{
    let tail = b.subrange(i, b.len() as int);
    if opts.len() == 0 {
        assert(encoded_options(opts) == Seq::<u8>::empty());
        assert(tail.len() == 1);
        assert(i < b.len());
        assert(b[i] == tail[0]);
        assert(tail[0] == OPTION_END);
        assert(spec_parse_options(b, i) == Ok::<Seq<OptionView>, CodecError>(Seq::empty()));
        assert(opts =~= Seq::<OptionView>::empty());
    } else {
        let o = opts[0];
        let rest = opts.drop_first();
        let eo = encoded_option(o);
        let d = o.data.len() as int;
        assert(option_wf(o));
        assert(encoded_options(opts) == eo + encoded_options(rest));
        assert(eo.len() == 2 + d);
        assert(tail.len() == b.len() - i);
        assert(tail.len() == eo.len() + encoded_options(rest).len() + 1);
        assert(b[i] == tail[0] && tail[0] == eo[0] && eo[0] == o.code);
        assert(b[i + 1] == tail[1] && tail[1] == eo[1] && eo[1] == o.data.len() as u8);
        assert(b[i + 1] as int == d);
        assert(i + 2 + d <= b.len());
        assert(b.subrange(i + 2, i + 2 + d) =~= o.data) by {
            assert forall|k: int| 0 <= k < d implies b.subrange(i + 2, i + 2 + d)[k] == o.data[k] by {
                assert(b.subrange(i + 2, i + 2 + d)[k] == b[i + 2 + k]);
                assert(b[i + 2 + k] == tail[2 + k]);
                assert(tail[2 + k] == eo[2 + k]);
                assert(eo[2 + k] == o.data[k]);
            }
        }
        assert(b.subrange(i + 2 + d, b.len() as int) =~= encoded_options(rest) + seq![
            OPTION_END,
        ]) by {
            let rfull = encoded_options(rest) + seq![OPTION_END];
            assert forall|k: int|
                0 <= k < b.len() - (i + 2 + d) implies b.subrange(i + 2 + d, b.len() as int)[k]
                == rfull[k] by {
                assert(b.subrange(i + 2 + d, b.len() as int)[k] == b[i + 2 + d + k]);
                assert(b[i + 2 + d + k] == tail[2 + d + k]);
                assert(tail[2 + d + k] == rfull[k]);
            }
        }
        assert(forall|k: int| 0 <= k < rest.len() ==> option_wf(#[trigger] rest[k]));
        lemma_parse_encoded(b, i + 2 + d, rest);
        let parsed_head = OptionView { code: b[i], data: b.subrange(i + 2, i + 2 + (b[i + 1] as int)) };
        assert(parsed_head =~= o);
        assert(spec_parse_options(b, i) == Ok::<Seq<OptionView>, CodecError>(
            seq![parsed_head] + rest,
        ));
        assert(seq![parsed_head] + rest =~= opts);
    }
}

/// Round trip: decoding an encoded message gives the message back, for any
/// message whose option codes are unique and whose fields are within the
/// wire-format length bounds.
#[verifier::rlimit(30)]
pub proof fn lemma_round_trip(m: MessageView)
    requires
        message_wf(m),
    ensures
        spec_decode(spec_encode(m)) == Ok::<MessageView, CodecError>(m),
{
    let b = spec_encode(m);
    let h = encoded_header(m);
    let eo = encoded_options(m.options);
    assert(h.len() == 236);
    assert(b.len() == 241 + eo.len());
    assert(forall|k: int| 0 <= k < 236 ==> b[k] == h[k]);
    assert(b.subrange(236, 240) =~= magic_cookie()) by {
        assert(b[236] == magic_cookie()[0]);
        assert(b[237] == magic_cookie()[1]);
        assert(b[238] == magic_cookie()[2]);
        assert(b[239] == magic_cookie()[3]);
    }
    assert(b.subrange(240, b.len() as int) =~= eo + seq![OPTION_END]) by {
        assert forall|k: int| 0 <= k < b.len() - 240 implies b.subrange(240, b.len() as int)[k] == (
        eo + seq![OPTION_END])[k] by {
            assert(b.subrange(240, b.len() as int)[k] == b[240 + k]);
        }
    }
    lemma_parse_encoded(b, 240, m.options);
    assert(spec_parse_options(b, 240) == Ok::<Seq<OptionView>, CodecError>(m.options));

    assert(op_code_of_byte(b[0]) == m.operation_code) by {
        assert(b[0] == op_code_byte(m.operation_code));
    }
    assert(b[4] == be32_bytes(m.transaction_id)[0] && b[5] == be32_bytes(m.transaction_id)[1] && b[6]
        == be32_bytes(m.transaction_id)[2] && b[7] == be32_bytes(m.transaction_id)[3]);
    lemma_be32_round_trip(m.transaction_id);
    assert(b[8] == be16_bytes(m.seconds)[0] && b[9] == be16_bytes(m.seconds)[1]);
    lemma_be16_round_trip(m.seconds);
    assert(broadcast_of_byte(b[10]) == m.broadcast) by {
        assert(b[10] == flags_bytes(m.broadcast)[0]);
        assert(0x80u8 & 0x80u8 != 0 && 0u8 & 0x80u8 == 0) by (bit_vector);
    }
    assert(b[12] == be32_bytes(m.client_address)[0] && b[13] == be32_bytes(m.client_address)[1]
        && b[14] == be32_bytes(m.client_address)[2] && b[15] == be32_bytes(m.client_address)[3]);
    lemma_be32_round_trip(m.client_address);
    assert(b[16] == be32_bytes(m.your_address)[0] && b[17] == be32_bytes(m.your_address)[1] && b[18]
        == be32_bytes(m.your_address)[2] && b[19] == be32_bytes(m.your_address)[3]);
    lemma_be32_round_trip(m.your_address);
    assert(b[20] == be32_bytes(m.server_address)[0] && b[21] == be32_bytes(m.server_address)[1]
        && b[22] == be32_bytes(m.server_address)[2] && b[23] == be32_bytes(m.server_address)[3]);
    lemma_be32_round_trip(m.server_address);
    assert(b[24] == be32_bytes(m.gateway_address)[0] && b[25] == be32_bytes(m.gateway_address)[1]
        && b[26] == be32_bytes(m.gateway_address)[2] && b[27] == be32_bytes(m.gateway_address)[3]);
    lemma_be32_round_trip(m.gateway_address);
    assert(b.subrange(28, 44) =~= m.chaddr) by {
        assert forall|k: int| 0 <= k < 16 implies b.subrange(28, 44)[k] == m.chaddr[k] by {
            assert(b.subrange(28, 44)[k] == b[28 + k]);
            assert(h[28 + k] == m.chaddr[k]);
        }
    }
    assert(b.subrange(44, 108) =~= m.sname) by {
        assert forall|k: int| 0 <= k < 64 implies b.subrange(44, 108)[k] == m.sname[k] by {
            assert(b.subrange(44, 108)[k] == b[44 + k]);
            assert(h[44 + k] == m.sname[k]);
        }
    }
    assert(b.subrange(108, 236) =~= m.file) by {
        assert forall|k: int| 0 <= k < 128 implies b.subrange(108, 236)[k] == m.file[k] by {
            assert(b.subrange(108, 236)[k] == b[108 + k]);
            assert(h[108 + k] == m.file[k]);
        }
    }
    assert(spec_header_view(b, m.options) =~= m);
}

proof fn lemma_parse_truncated(b: Seq<u8>, i: int, opts: Seq<OptionView>)
    requires
        0 <= i <= b.len(),
        forall|k: int| 0 <= k < opts.len() ==> option_wf(#[trigger] opts[k]),
        b.len() - i < encoded_options(opts).len() + 1,
        b.subrange(i, b.len() as int) == (encoded_options(opts) + seq![OPTION_END]).take(
            b.len() - i,
        ),
    ensures
        spec_parse_options(b, i) == Err::<Seq<OptionView>, CodecError>(CodecError::Truncated),
    decreases opts.len(),
{
    let full = encoded_options(opts) + seq![OPTION_END];
    let tail = b.subrange(i, b.len() as int);
    let rem = b.len() - i;
    if rem == 0 {
    } else if opts.len() == 0 {
        assert(encoded_options(opts) == Seq::<u8>::empty());
        assert(rem < 1);
    } else {
        let o = opts[0];
        let rest = opts.drop_first();
        let eo = encoded_option(o);
        let d = o.data.len() as int;
        assert(option_wf(o));
        assert(encoded_options(opts) == eo + encoded_options(rest));
        assert(eo.len() == 2 + d);
        assert(b[i] == tail[0] && tail[0] == full[0] && full[0] == o.code);
        if rem == 1 {
            assert(i + 2 > b.len());
        } else {
            assert(b[i + 1] == tail[1] && tail[1] == full[1] && full[1] == o.data.len() as u8);
            assert(b[i + 1] as int == d);
            if rem < 2 + d {
                assert(i + 2 + (b[i + 1] as int) > b.len());
            } else {
                assert(b.subrange(i + 2 + d, b.len() as int) =~= (encoded_options(rest) + seq![
                    OPTION_END,
                ]).take(b.len() - (i + 2 + d))) by {
                    let rfull = encoded_options(rest) + seq![OPTION_END];
                    assert forall|k: int|
                        0 <= k < b.len() - (i + 2 + d) implies #[trigger] b.subrange(
                        i + 2 + d,
                        b.len() as int,
                    )[k] == rfull.take(b.len() - (i + 2 + d))[k] by {
                        assert(b.subrange(i + 2 + d, b.len() as int)[k] == b[i + 2 + d + k]);
                        assert(b[i + 2 + d + k] == tail[2 + d + k]);
                        assert(tail[2 + d + k] == full[2 + d + k]);
                        assert(full[2 + d + k] == rfull[k]);
                    }
                }
                assert(forall|k: int| 0 <= k < rest.len() ==> option_wf(#[trigger] rest[k]));
                lemma_parse_truncated(b, i + 2 + d, rest);
            }
        }
    }
}

/// Cutting an encoded message anywhere inside its option area always
/// decodes to `CodecError::Truncated` — never to a message and never to a
/// panic or an out-of-bounds read, since `decode` is total.
#[verifier::rlimit(30)]
pub proof fn lemma_truncated_option_area(m: MessageView, k: int)
    requires
        message_wf(m),
        240 <= k < spec_encode(m).len(),
    ensures
        spec_decode(spec_encode(m).take(k)) == Err::<MessageView, CodecError>(
            CodecError::Truncated,
        ),
{
    let b = spec_encode(m);
    let t = b.take(k);
    let eo = encoded_options(m.options);
    assert(encoded_header(m).len() == 236);
    assert(b.len() == 241 + eo.len());
    assert(t.len() == k);
    assert(forall|j: int| 0 <= j < k ==> t[j] == b[j]);
    assert(t.subrange(236, 240) =~= magic_cookie()) by {
        assert(b.subrange(236, 240) =~= magic_cookie()) by {
            assert(b[236] == magic_cookie()[0]);
            assert(b[237] == magic_cookie()[1]);
            assert(b[238] == magic_cookie()[2]);
            assert(b[239] == magic_cookie()[3]);
        }
        assert(t.subrange(236, 240) =~= b.subrange(236, 240));
    }
    assert(t.subrange(240, k) =~= (eo + seq![OPTION_END]).take(k - 240)) by {
        assert forall|j: int| 0 <= j < k - 240 implies t.subrange(240, k)[j] == (eo + seq![
            OPTION_END,
        ]).take(k - 240)[j] by {
            assert(t.subrange(240, k)[j] == b[240 + j]);
            assert(b[240 + j] == (eo + seq![OPTION_END])[j]);
        }
    }
    assert(t.len() - 240 < eo.len() + 1);
    lemma_parse_truncated(t, 240, m.options);
}

/// First option with the given code, if any.
pub open spec fn spec_find_option(opts: Seq<OptionView>, code: u8) -> Option<OptionView>
    decreases opts.len(),
{
    if opts.len() == 0 {
        None
    } else if opts[0].code == code {
        Some(opts[0])
    } else {
        spec_find_option(opts.drop_first(), code)
    }
}

proof fn lemma_find_option_at(opts: Seq<OptionView>, code: u8, i: int)
    requires
        0 <= i < opts.len(),
        opts[i].code == code,
        forall|j: int| 0 <= j < i ==> (#[trigger] opts[j]).code != code,
    ensures
        spec_find_option(opts, code) == Some(opts[i]),
    decreases i,
{
    if i == 0 {
    } else {
        assert(opts.drop_first()[i - 1] == opts[i]);
        lemma_find_option_at(opts.drop_first(), code, i - 1);
    }
}

proof fn lemma_find_option_none(opts: Seq<OptionView>, code: u8)
    requires
        forall|j: int| 0 <= j < opts.len() ==> (#[trigger] opts[j]).code != code,
    ensures
        spec_find_option(opts, code) == None::<OptionView>,
    decreases opts.len(),
{
    if opts.len() > 0 {
        lemma_find_option_none(opts.drop_first(), code);
    }
}

/// Look up the first option with the given code.
pub fn find_option<'a>(m: &'a Message, code: u8) -> (r: Option<&'a DhcpOption>)
    ensures
        match r {
            Some(o) => spec_find_option(m@.options, code) == Some(o@),
            None => spec_find_option(m@.options, code) == None::<OptionView>,
        },
{
    let n = m.options.len();
    let mut k: usize = 0;
    while k < n
        invariant
            k <= n == m.options@.len(),
            forall|j: int| 0 <= j < k ==> (#[trigger] m@.options[j]).code != code,
        decreases n - k,
    {
        if m.options[k].code == code {
            proof {
                lemma_find_option_at(m@.options, code, k as int);
            }
            return Some(&m.options[k]);
        }
        k = k + 1;
    }
    proof {
        lemma_find_option_none(m@.options, code);
    }
    None
}

/// The DHCP message type carried in the options, if any: the first byte of
/// the payload of option `OPTION_MESSAGE_TYPE` when that payload is not
/// empty.
pub open spec fn spec_message_type(m: MessageView) -> Option<u8> {
    match spec_find_option(m.options, OPTION_MESSAGE_TYPE) {
        Some(o) => if o.data.len() >= 1 {
            Some(o.data[0])
        } else {
            None
        },
        None => None,
    }
}

/// Read the DHCP message type option.
pub fn message_type(m: &Message) -> (r: Option<u8>)
    ensures
        r == spec_message_type(m@),
{
    match find_option(m, OPTION_MESSAGE_TYPE) {
        Some(o) => if o.data.len() >= 1 {
            Some(o.data[0])
        } else {
            None
        },
        None => None,
    }
}

/// A four-byte option payload read as a big-endian address.
pub open spec fn spec_option_addr(m: MessageView, code: u8) -> Option<u32> {
    match spec_find_option(m.options, code) {
        Some(o) => if o.data.len() == 4 {
            Some(be32_val(o.data[0], o.data[1], o.data[2], o.data[3]))
        } else {
            None
        },
        None => None,
    }
}

/// Read a four-byte option (requested address, server id) as an address.
pub fn option_addr(m: &Message, code: u8) -> (r: Option<u32>)
    ensures
        r == spec_option_addr(m@, code),
{
    match find_option(m, code) {
        Some(o) => if o.data.len() == 4 {
            let v = ((o.data[0] as u32) << 24) | ((o.data[1] as u32) << 16) | ((o.data[2] as u32)
                << 8) | (o.data[3] as u32);
            Some(v)
        } else {
            None
        },
        None => None,
    }
}

} // verus!
