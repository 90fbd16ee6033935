//! Packet framing: every packet is `[total_len: u16 LE][cmd: u8][payload...]`,
//! where `total_len` counts the command byte and the payload but not the two
//! length bytes themselves.

use vstd::prelude::*;

verus! {

/// The low byte of a 16-bit length field.
pub open spec fn lo_byte(n: nat) -> u8 {
    (n % 256) as u8
}

/// The high byte of a 16-bit length field.
pub open spec fn hi_byte(n: nat) -> u8 {
    ((n % 65536) / 256) as u8
}

/// The value of the length field of a packet with `payload_len` payload bytes
/// (it wraps at 16 bits).
pub open spec fn length_field(payload_len: nat) -> nat {
    (payload_len + 1) % 65536
}

/// The framed packet for a command byte and a payload.
pub open spec fn frame(msg_type: u8, payload: Seq<u8>) -> Seq<u8> {
    seq![lo_byte(length_field(payload.len())), hi_byte(length_field(payload.len())), msg_type]
        + payload
}

/// Frames `payload` behind the command byte `msg_type` and its 16-bit
/// little-endian length field.
pub fn build_message(msg_type: u8, payload: &[u8]) -> (msg: Vec<u8>)
    ensures
        msg@ == frame(msg_type, payload@),
{
    let low: u32 = (payload.len() % 65536) as u32;
    let total: u32 = (low + 1) % 65536;
    let mut msg: Vec<u8> = Vec::with_capacity(3);
    msg.push((total % 256) as u8);
    msg.push((total / 256) as u8);
    msg.push(msg_type);
    msg.extend_from_slice(payload);
    proof {
        assert(total == length_field(payload@.len()));
    }
    msg
}

/// Message type of a file header (the JSON that announces an upload).
pub const MSG_FILE_HEADER: u8 = 0x06;

/// Message type of a file body chunk.
pub const MSG_FILE_BODY: u8 = 0x07;

/// Largest number of body bytes sent in one chunk packet.
pub const CHUNK_SIZE: usize = 8192;

/// The 8-byte header of a body chunk carrying `data_size` bytes:
/// `[len_field: u16 LE][0x07][data_size: u32 LE][0x00]`, where
/// `len_field = data_size + 6` (wrapping at 16 bits).
pub open spec fn chunk_header(data_size: nat) -> Seq<u8> {
    let len_field = (data_size + 6) % 65536;
    let size = data_size % 0x1_0000_0000;
    seq![
        (len_field % 256) as u8,
        (len_field / 256) as u8,
        MSG_FILE_BODY,
        (size % 256) as u8,
        ((size / 256) % 256) as u8,
        ((size / 65536) % 256) as u8,
        (size / 0x100_0000) as u8,
        0u8,
    ]
}

/// Builds the header that precedes a body chunk of `data_size` bytes.
pub fn build_chunk_header(data_size: usize) -> (header: [u8; 8])
    requires
        data_size + 6 <= usize::MAX,
    ensures
        header@ == chunk_header(data_size as nat),
{
    let len_field: u64 = ((data_size as u64) + 6) % 65536;
    let size: u64 = (data_size as u64) % 0x1_0000_0000;
    let header: [u8; 8] = [
        (len_field % 256) as u8,
        (len_field / 256) as u8,
        MSG_FILE_BODY,
        (size % 256) as u8,
        ((size / 256) % 256) as u8,
        ((size / 65536) % 256) as u8,
        (size / 0x100_0000) as u8,
        0x00,
    ];
    assert(header@ =~= chunk_header(data_size as nat));
    header
}

/// The upload-init packet: the file-header message whose payload is the
/// serialised metadata followed by a NUL byte.
pub open spec fn upload_init(json: Seq<u8>) -> Seq<u8> {
    frame(MSG_FILE_HEADER, json.push(0u8))
}

/// Frames the serialised JSON metadata of an upload, NUL-terminated, as a
/// file-header message.
pub fn build_upload_init(json: &[u8]) -> (msg: Vec<u8>)
    ensures
        msg@ == upload_init(json@),
{
    let mut payload: Vec<u8> = Vec::with_capacity(json.len());
    payload.extend_from_slice(json);
    payload.push(0x00);
    build_message(MSG_FILE_HEADER, payload.as_slice())
}

/// Where the chunk that starts at `offset` ends.
pub open spec fn chunk_end(len: nat, offset: nat) -> nat {
    if offset + CHUNK_SIZE < len { (offset + CHUNK_SIZE) as nat } else { len }
}

/// The packet that carries the body bytes from `offset` to the chunk's end.
pub open spec fn chunk_packet(body: Seq<u8>, offset: nat) -> Seq<u8> {
    let end = chunk_end(body.len(), offset);
    chunk_header((end - offset) as nat) + body.subrange(offset as int, end as int)
}

/// Builds the chunk packet that starts at `offset` of `body`, and returns it
/// with the offset at which the next chunk starts.
pub fn build_chunk_packet(body: &[u8], offset: usize) -> (res: (Vec<u8>, usize))
    requires
        offset < body@.len(),
    ensures
        res.0@ == chunk_packet(body@, offset as nat),
        res.1 == chunk_end(body@.len(), offset as nat),
        offset < res.1 <= body@.len(),
{
    let end: usize = if body.len() - offset > CHUNK_SIZE { offset + CHUNK_SIZE } else { body.len() };
    let header = build_chunk_header(end - offset);
    let mut pkt: Vec<u8> = Vec::with_capacity(8 + (end - offset));
    pkt.extend_from_slice(&header);
    let mut i: usize = offset;
    while i < end
        invariant
            offset <= i <= end <= body@.len(),
            pkt@ == header@ + body@.subrange(offset as int, i as int),
        decreases end - i,
    {
        pkt.push(body[i]);
        i = i + 1;
        assert(body@.subrange(offset as int, i as int) =~= body@.subrange(offset as int, (i - 1) as int).push(body@[i - 1]));
    }
    (pkt, end)
}

/// The body bytes that the chunks from `offset` onwards carry, in order.
pub open spec fn chunks_payload(body: Seq<u8>, offset: nat) -> Seq<u8>
    decreases body.len() - offset,
{
    if offset >= body.len() {
        Seq::empty()
    } else {
        let end = chunk_end(body.len(), offset);
        body.subrange(offset as int, end as int) + chunks_payload(body, end)
    }
}

/// Sending the chunks of a body one after another, starting at offset 0 and
/// going on from each chunk's end, carries exactly the body, in order.
pub proof fn lemma_chunks_carry_body(body: Seq<u8>, offset: nat)
    requires
        offset <= body.len(),
    ensures
        chunks_payload(body, offset) == body.subrange(offset as int, body.len() as int),
    decreases body.len() - offset,
{
    if offset < body.len() {
        let end = chunk_end(body.len(), offset);
        lemma_chunks_carry_body(body, end);
        assert(body.subrange(offset as int, end as int) + body.subrange(end as int, body.len() as int)
            =~= body.subrange(offset as int, body.len() as int));
    } else {
        assert(body.subrange(offset as int, body.len() as int) =~= Seq::<u8>::empty());
    }
}

/// The chunk packets of a body from `offset` on, in the order they are sent.
pub open spec fn chunk_packets(body: Seq<u8>, offset: nat) -> Seq<Seq<u8>>
    decreases body.len() - offset,
{
    if offset >= body.len() {
        Seq::empty()
    } else {
        seq![chunk_packet(body, offset)] + chunk_packets(body, chunk_end(body.len(), offset))
    }
}

/// The bytes of each packet.
pub open spec fn packets_view(packets: Seq<Vec<u8>>) -> Seq<Seq<u8>> {
    packets.map_values(|p: Vec<u8>| p@)
}

/// Every packet that sends a file, in order: the upload-init packet with the
/// serialised metadata, then the body's chunk packets.
pub fn file_packets(json: &[u8], body: &[u8]) -> (packets: Vec<Vec<u8>>)
    ensures
        packets_view(packets@) == seq![upload_init(json@)] + chunk_packets(body@, 0),
{
    let mut packets: Vec<Vec<u8>> = Vec::new();
    packets.push(build_upload_init(json));
    let mut offset: usize = 0;
    assert(packets_view(packets@) =~= seq![upload_init(json@)]);
    while offset < body.len()
        invariant
            offset <= body@.len(),
            seq![upload_init(json@)] + chunk_packets(body@, 0) == packets_view(packets@) + chunk_packets(
                body@,
                offset as nat,
            ),
        decreases body@.len() - offset,
    {
        let ghost before = packets@;
        let (pkt, end) = build_chunk_packet(body, offset);
        packets.push(pkt);
        assert(packets_view(packets@) =~= packets_view(before).push(chunk_packet(body@, offset as nat)));
        assert(packets_view(before) + chunk_packets(body@, offset as nat) =~= packets_view(packets@)
            + chunk_packets(body@, end as nat));
        offset = end;
    }
    assert(chunk_packets(body@, offset as nat) =~= Seq::<Seq<u8>>::empty());
    assert(packets_view(packets@) + chunk_packets(body@, offset as nat) =~= packets_view(packets@));
    packets
}

proof fn lemma_chunk_packets_from(body: Seq<u8>, o: nat)
    requires
        o <= body.len(),
    ensures
        chunk_packets(body, o).len() == (body.len() - o + CHUNK_SIZE - 1) / (CHUNK_SIZE as int),
        forall|i: int|
            0 <= i < chunk_packets(body, o).len() ==> #[trigger] chunk_packets(body, o)[i]
                == chunk_packet(body, (o + CHUNK_SIZE * i) as nat),
    decreases body.len() - o,
{
    if o < body.len() {
        let end = chunk_end(body.len(), o);
        lemma_chunk_packets_from(body, end);
        let rest = chunk_packets(body, end);
        assert forall|i: int| 0 <= i < chunk_packets(body, o).len() implies #[trigger] chunk_packets(
            body,
            o,
        )[i] == chunk_packet(body, (o + CHUNK_SIZE * i) as nat) by {
            if i > 0 {
                assert(chunk_packets(body, o)[i] == rest[i - 1]);
                if end == body.len() {
                    assert(rest.len() == 0);
                }
                assert(end == o + CHUNK_SIZE);
            }
        }
    }
}

/// How a file's body is cut: with `n` bytes it goes in `ceil(n / 8192)`
/// chunk packets (none for an empty body); packet `k` is the header of its
/// chunk followed by the chunk, bytes `8192 k` up to `min(8192 (k + 1), n)`
/// of the body, so no chunk exceeds 8192 bytes; and the chunks, one after
/// another, are the body.
pub proof fn lemma_file_chunks(body: Seq<u8>)
    ensures
        chunk_packets(body, 0).len() == (body.len() + CHUNK_SIZE - 1) / (CHUNK_SIZE as int),
        body.len() == 0 ==> chunk_packets(body, 0).len() == 0,
        forall|k: int|
            0 <= k < chunk_packets(body, 0).len() ==> {
                let start = CHUNK_SIZE * k;
                let end = if start + CHUNK_SIZE < body.len() { start + CHUNK_SIZE } else { body.len() as int };
                &&& end - start <= CHUNK_SIZE
                &&& #[trigger] chunk_packets(body, 0)[k] == chunk_header((end - start) as nat)
                    + body.subrange(start, end)
            },
        chunks_payload(body, 0) == body,
{
    lemma_chunk_packets_from(body, 0);
    lemma_chunks_carry_body(body, 0);
    assert(body.subrange(0, body.len() as int) =~= body);
}

/// The number of bytes that a packet starting with `data` declares it has,
/// length bytes included.
pub open spec fn declared_total(data: Seq<u8>) -> nat
    recommends
        data.len() >= 2,
{
    (2 + data[0] + 256 * data[1]) as nat
}

/// Whether `data` already holds the whole packet it starts with.
pub open spec fn frame_complete(data: Seq<u8>) -> bool {
    data.len() >= 2 && data.len() >= declared_total(data)
}

/// Collects the USB reads that make up one response packet.
pub struct ResponseReader {
    data: Vec<u8>,
}

/// What to do after a read: read again, or take the finished response.
pub enum ReadStep {
    Pending(ResponseReader),
    Done(Vec<u8>),
}

impl View for ResponseReader {
    type V = Seq<u8>;

    closed spec fn view(&self) -> Seq<u8> {
        self.data@
    }
}

/// The outcome of one read on top of the bytes already collected: `(true, r)`
/// when the response `r` is finished, `(false, d)` when reading goes on with
/// the bytes `d`. An empty read ends the response as it stands; a complete
/// packet is cut to its declared length.
pub open spec fn read_step(data: Seq<u8>, chunk: Seq<u8>) -> (bool, Seq<u8>) {
    if chunk.len() == 0 {
        (true, data)
    } else {
        let d = data + chunk;
        if frame_complete(d) {
            (true, d.take(declared_total(d) as int))
        } else {
            (false, d)
        }
    }
}

/// The response that a sequence of reads produces, if it finishes.
pub open spec fn read_session(data: Seq<u8>, chunks: Seq<Seq<u8>>) -> Option<Seq<u8>>
    decreases chunks.len(),
{
    if chunks.len() == 0 {
        None
    } else {
        let (done, d) = read_step(data, chunks[0]);
        if done {
            Some(d)
        } else {
            read_session(d, chunks.drop_first())
        }
    }
}

/// The bytes of a sequence of reads, one after another.
pub open spec fn concat_reads(chunks: Seq<Seq<u8>>) -> Seq<u8>
    decreases chunks.len(),
{
    if chunks.len() == 0 {
        Seq::empty()
    } else {
        chunks[0] + concat_reads(chunks.drop_first())
    }
}

impl ResponseReader {
    /// A reader that has collected nothing yet.
    pub fn new() -> (r: ResponseReader)
        ensures
            r@ == Seq::<u8>::empty(),
    {
        ResponseReader { data: Vec::new() }
    }

    /// Takes the bytes of one read (`chunk`, empty when the device sent
    /// nothing) and says whether the response is finished.
    pub fn on_read(self, chunk: &[u8]) -> (step: ReadStep)
        ensures
            read_step(self@, chunk@).0 ==> (step matches ReadStep::Done(d) && d@ == read_step(
                self@,
                chunk@,
            ).1),
            !read_step(self@, chunk@).0 ==> (step matches ReadStep::Pending(r) && r@ == read_step(
                self@,
                chunk@,
            ).1),
    {
        let mut data = self.data;
        if chunk.len() == 0 {
            return ReadStep::Done(data);
        }
        data.extend_from_slice(chunk);
        if data.len() >= 2 {
            let expected: usize = 2 + (data[0] as usize) + (data[1] as usize) * 256;
            if data.len() >= expected {
                data.truncate(expected);
                return ReadStep::Done(data);
            }
        }
        ReadStep::Pending(ResponseReader { data })
    }
}

proof fn lemma_concat_reads_first(chunks: Seq<Seq<u8>>)
    requires
        chunks.len() > 0,
    ensures
        concat_reads(chunks) == chunks[0] + concat_reads(chunks.drop_first()),
{
}

proof fn lemma_session_reaches_frame(f: Seq<u8>, data: Seq<u8>, chunks: Seq<Seq<u8>>)
    requires
        f.len() >= 3,
        declared_total(f) == f.len(),
        data.len() < f.len(),
        data =~= f.take(data.len() as int),
        forall|i: int| 0 <= i < chunks.len() ==> (#[trigger] chunks[i]).len() > 0,
        (data + concat_reads(chunks)).len() >= f.len(),
        (data + concat_reads(chunks)).take(f.len() as int) =~= f,
    ensures
        read_session(data, chunks) == Some(f),
    decreases chunks.len(),
{
    if chunks.len() == 0 {
        assert(data + concat_reads(chunks) =~= data);
    } else {
        let c = chunks[0];
        let rest = chunks.drop_first();
        lemma_concat_reads_first(chunks);
        let d = data + c;
        assert(data + concat_reads(chunks) =~= d + concat_reads(rest));
        assert(c.len() > 0);
        if d.len() >= f.len() {
            assert(d.take(f.len() as int) =~= (data + concat_reads(chunks)).take(f.len() as int));
            assert(d[0] == f[0] && d[1] == f[1]);
            assert(frame_complete(d));
            assert(declared_total(d) == f.len());
        } else {
            assert(d =~= (data + concat_reads(chunks)).take(d.len() as int));
            assert(d =~= f.take(d.len() as int));
            if d.len() >= 2 {
                assert(d[0] == f[0] && d[1] == f[1]);
            }
            assert(!frame_complete(d));
            assert forall|i: int| 0 <= i < rest.len() implies (#[trigger] rest[i]).len() > 0 by {
                assert(rest[i] == chunks[i + 1]);
            }
            lemma_session_reaches_frame(f, d, rest);
        }
    }
}

/// However the device splits a framed message into non-empty reads, and
/// whatever follows it, reading a response gives back exactly that message
/// (for payloads short enough that the length field does not wrap).
pub proof fn lemma_read_gives_back_message(msg_type: u8, payload: Seq<u8>, chunks: Seq<Seq<u8>>)
    requires
        payload.len() + 1 < 65536,
        forall|i: int| 0 <= i < chunks.len() ==> (#[trigger] chunks[i]).len() > 0,
        concat_reads(chunks).len() >= frame(msg_type, payload).len(),
        concat_reads(chunks).take(frame(msg_type, payload).len() as int) == frame(
            msg_type,
            payload,
        ),
    ensures
        read_session(Seq::empty(), chunks) == Some(frame(msg_type, payload)),
{
    let f = frame(msg_type, payload);
    lemma_frame_declares_its_length(msg_type, payload);
    assert(Seq::<u8>::empty() + concat_reads(chunks) =~= concat_reads(chunks));
    lemma_session_reaches_frame(f, Seq::empty(), chunks);
}

proof fn lemma_concat_take_first(chunks: Seq<Seq<u8>>, j: int)
    requires
        1 <= j <= chunks.len(),
    ensures
        concat_reads(chunks.take(j)) == chunks[0] + concat_reads(chunks.drop_first().take(j - 1)),
{
    let t = chunks.take(j);
    assert(t[0] == chunks[0]);
    assert(t.drop_first() =~= chunks.drop_first().take(j - 1));
}

proof fn lemma_session_first_complete(data: Seq<u8>, chunks: Seq<Seq<u8>>, k: int)
    requires
        1 <= k <= chunks.len(),
        forall|i: int| 0 <= i < chunks.len() ==> (#[trigger] chunks[i]).len() > 0,
        frame_complete(data + concat_reads(chunks.take(k))),
        forall|j: int| 1 <= j < k ==> !frame_complete(data + concat_reads(#[trigger] chunks.take(j))),
    ensures
        read_session(data, chunks) == Some(
            (data + concat_reads(chunks.take(k))).take(
                declared_total(data + concat_reads(chunks.take(k))) as int,
            ),
        ),
    decreases k,
{
    let c = chunks[0];
    let rest = chunks.drop_first();
    let d = data + c;
    lemma_concat_take_first(chunks, 1);
    assert(rest.take(0) =~= Seq::<Seq<u8>>::empty());
    assert(data + concat_reads(chunks.take(1)) =~= d);
    assert(c.len() > 0);
    if k == 1 {
    } else {
        assert(!frame_complete(data + concat_reads(chunks.take(1))));
        assert forall|i: int| 0 <= i < rest.len() implies (#[trigger] rest[i]).len() > 0 by {
            assert(rest[i] == chunks[i + 1]);
        }
        assert forall|j: int| 1 <= j < k - 1 implies !frame_complete(d + concat_reads(#[trigger] rest.take(j))) by {
            lemma_concat_take_first(chunks, j + 1);
            assert(data + concat_reads(chunks.take(j + 1)) =~= d + concat_reads(rest.take(j)));
        }
        lemma_concat_take_first(chunks, k);
        assert(data + concat_reads(chunks.take(k)) =~= d + concat_reads(rest.take(k - 1)));
        lemma_session_first_complete(d, rest, k - 1);
    }
}

/// However the device splits its answer into non-empty reads, the response
/// is the bytes of the first reads that together hold a complete packet, cut
/// to the length that packet declares: reading stops after exactly those
/// reads and drops what follows the packet.
pub proof fn lemma_read_stops_at_first_complete_packet(chunks: Seq<Seq<u8>>, k: int)
    requires
        1 <= k <= chunks.len(),
        forall|i: int| 0 <= i < chunks.len() ==> (#[trigger] chunks[i]).len() > 0,
        frame_complete(concat_reads(chunks.take(k))),
        forall|j: int| 1 <= j < k ==> !frame_complete(concat_reads(#[trigger] chunks.take(j))),
    ensures
        read_session(Seq::empty(), chunks) == Some(
            concat_reads(chunks.take(k)).take(declared_total(concat_reads(chunks.take(k))) as int),
        ),
{
    assert forall|j: int| 1 <= j < k implies !frame_complete(
        Seq::<u8>::empty() + concat_reads(#[trigger] chunks.take(j)),
    ) by {
        assert(Seq::<u8>::empty() + concat_reads(chunks.take(j)) =~= concat_reads(chunks.take(j)));
    }
    assert(Seq::<u8>::empty() + concat_reads(chunks.take(k)) =~= concat_reads(chunks.take(k)));
    lemma_session_first_complete(Seq::empty(), chunks, k);
}

/// A framed message declares its own length: its first two bytes, read as
/// a little-endian length, plus the two length bytes give its size (for
/// payloads short enough that the length field does not wrap).
pub proof fn lemma_frame_declares_its_length(msg_type: u8, payload: Seq<u8>)
    requires
        payload.len() + 1 < 65536,
    ensures
        frame(msg_type, payload).len() >= 3,
        declared_total(frame(msg_type, payload)) == frame(msg_type, payload).len(),
        frame_complete(frame(msg_type, payload)),
{
    let n = payload.len() + 1;
    assert(length_field(payload.len()) == n);
    assert(lo_byte(n) + 256 * hi_byte(n) == n);
}

/// A chunk header reads back as what it was built from: its length field
/// is the data size plus 6 and its size field is the data size (for sizes
/// that fit the 16-bit length field).
pub proof fn lemma_chunk_header_reads_back(data_size: nat)
    requires
        data_size + 6 < 65536,
    ensures
        chunk_header(data_size)[0] + 256 * chunk_header(data_size)[1] == data_size + 6,
        chunk_header(data_size)[2] == MSG_FILE_BODY,
        chunk_header(data_size)[3] + 256 * chunk_header(data_size)[4] + 65536 * chunk_header(
            data_size,
        )[5] + 0x100_0000 * chunk_header(data_size)[6] == data_size,
{
}

/// The acknowledgement packet `[01 00 00]`.
pub open spec fn ack() -> Seq<u8> {
    seq![1u8, 0u8, 0u8]
}

/// Builds the acknowledgement packet `[01 00 00]`.
pub fn ack_packet() -> (pkt: Vec<u8>)
    ensures
        pkt@ == ack(),
{
    let mut pkt: Vec<u8> = Vec::with_capacity(3);
    pkt.push(0x01);
    pkt.push(0x00);
    pkt.push(0x00);
    assert(pkt@ =~= ack());
    pkt
}

/// Whether a response is exactly the acknowledgement `[01 00 00]`.
pub fn is_ack(resp: &[u8]) -> (b: bool)
    ensures
        b == (resp@ == ack()),
{
    let ok = resp.len() == 3 && resp[0] == 0x01 && resp[1] == 0x00 && resp[2] == 0x00;
    if ok {
        assert(resp@ =~= ack());
    }
    ok
}

} // verus!
