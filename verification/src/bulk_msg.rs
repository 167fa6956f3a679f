//! Bulk messages: a message whose body does not fit one downlink packet is
//! cut into numbered packets, and numbered packets are put back together.
use vstd::prelude::*;
use crate::msg::{Msg, MsgView};

verus! {

/// The largest body that one packet carries.
pub const MAX_BODY_SIZE: usize = 123;

/// The bytes of a large body that one numbered packet carries: a packet's
/// body less the sequence number in front.
pub const CHUNK_SIZE: usize = MAX_BODY_SIZE - 1;

/// `s`, cut to at most `n` elements.
pub open spec fn take_at_most(s: Seq<u8>, n: int) -> Seq<u8> {
    if s.len() <= n { s } else { s.take(n) }
}

/// The body of a packet made from `body`: the packet count alone for the
/// leading packet, else the sequence number in front of the body; either way
/// cut to one packet.
pub open spec fn packet_body(body: Seq<u8>, sequence_num: u8, total_packets: Option<u8>) -> Seq<u8> {
    let b = match total_packets {
        Some(total) => seq![total],
        None => seq![sequence_num] + body,
    };
    take_at_most(b, MAX_BODY_SIZE as int)
}

/// The number of packets that a body of `len` bytes is cut into.
pub open spec fn packet_count(len: int) -> int {
    (len + CHUNK_SIZE - 1) / CHUNK_SIZE as int
}

/// The `i`-th slice of `body` that fits a numbered packet beside its
/// sequence number.
pub open spec fn chunk(body: Seq<u8>, i: int) -> Seq<u8> {
    let end = if (i + 1) * CHUNK_SIZE < body.len() { (i + 1) * CHUNK_SIZE } else { body.len() as int };
    body.subrange(i * CHUNK_SIZE, end)
}

/// What `handle_large_msg` makes of a message: the message itself if its body
/// fits one packet; else a leading packet that holds the packet count
/// (truncated to a byte), then one packet per slice, numbered from 1.
pub open spec fn fragments(m: MsgView) -> Seq<MsgView> {
    let len = m.body.len() as int;
    if len <= MAX_BODY_SIZE {
        seq![m]
    } else {
        let n = packet_count(len);
        seq![MsgView { header: m.header, body: seq![n as u8] }] + Seq::new(
            n as nat,
            |i: int|
                MsgView {
                    header: m.header,
                    body: packet_body(chunk(m.body, i), (i + 1) as u8, None),
                },
        )
    }
}

/// The bodies of the packets in `s`, each without its leading sequence
/// number, one after the other.
pub open spec fn joined_tails(s: Seq<MsgView>) -> Seq<u8>
    decreases s.len(),
{
    if s.len() == 0 {
        Seq::empty()
    } else {
        joined_tails(s.drop_last()) + s.last().body.drop_first()
    }
}

/// A packet after the leading one whose body is empty or whose sequence number
/// is not its position.
pub open spec fn has_bad_sequence(s: Seq<MsgView>) -> bool {
    exists|j: int|
        1 <= j < s.len() && (#[trigger] s[j].body.len() == 0 || s[j].body[0] as int != j)
}

/// What `reconstruct_msg` makes of a list of packets.
pub open spec fn reassembled(s: Seq<MsgView>) -> Result<MsgView, Seq<char>> {
    if s.len() == 0 {
        Err("No messages to reconstruct"@)
    } else if s[0].body.len() == 0 {
        Err("First message body empty"@)
    } else if s[0].body[0] as int != s.len() - 1 {
        Err("Mismatch between number of packets and message count"@)
    } else if has_bad_sequence(s) {
        Err("Invalid sequence number or empty message body"@)
    } else {
        Ok(MsgView { header: s[0].header, body: joined_tails(s.skip(1)) })
    }
}

/// Makes one packet of `msg`: with `Some(total)` it carries only the packet
/// count, else `sequence_num` goes in front of the body; the body is then cut
/// to one packet.
pub fn deconstruct_msg(msg: Msg, sequence_num: u8, total_packets: Option<u8>) -> (r: Msg)
    ensures
        r@ == (MsgView {
            header: msg.header,
            body: packet_body(msg.msg_body@, sequence_num, total_packets),
        }),
{
    let head = msg.header;
    let mut body = msg.msg_body;
    match total_packets {
        Some(total) => {
            body = Vec::new();
            body.push(total);
        },
        None => {
            body.insert(0, sequence_num);
        },
    }
    let keep = if body.len() < MAX_BODY_SIZE { body.len() } else { MAX_BODY_SIZE };
    body.truncate(keep);
    let ghost b = match total_packets {
        Some(total) => seq![total],
        None => seq![sequence_num] + msg.msg_body@,
    };
    assert(body@ =~= take_at_most(b, MAX_BODY_SIZE as int));
    Msg { header: head, msg_body: body }
}

/// Cuts a message into packets: a message whose body fits one packet is kept
/// as it is; else a leading packet carries the packet count and each slice of
/// the body follows, with its sequence number in front, in its own numbered
/// packet, so that the packets after the leading one, less their sequence
/// numbers, carry the whole body in order.
pub fn handle_large_msg(large_msg: Msg) -> (r: Vec<Msg>)
    requires
        large_msg.msg_body@.len() + CHUNK_SIZE - 1 <= usize::MAX,
    ensures
        r.deep_view() == fragments(large_msg@),
        large_msg.msg_body@.len() > MAX_BODY_SIZE ==> joined_tails(r.deep_view().skip(1))
            == large_msg.msg_body@,
{
    let body_len: usize = large_msg.msg_body.len();
    let ghost m = large_msg@;
    let mut messages: Vec<Msg> = Vec::new();
    if body_len <= MAX_BODY_SIZE {
        messages.push(large_msg);
        assert(messages.deep_view() =~= fragments(m));
    } else {
        let number_of_packets: usize = (body_len + (CHUNK_SIZE - 1)) / CHUNK_SIZE;
        #[verifier::truncate]
        let number_of_packets_u8: u8 = number_of_packets as u8;
        let head = large_msg.header;
        let first_msg = deconstruct_msg(
            Msg { header: head, msg_body: Vec::new() },
            0,
            Some(number_of_packets_u8),
        );
        messages.push(first_msg);
        let mut i: usize = 0;
        while i < number_of_packets
            invariant
                m == large_msg@,
                body_len == m.body.len(),
                body_len > MAX_BODY_SIZE,
                body_len + CHUNK_SIZE - 1 <= usize::MAX,
                number_of_packets == packet_count(body_len as int),
                head == m.header,
                i <= number_of_packets,
                messages@.len() == i + 1,
                messages.deep_view()[0] == (MsgView { header: head, body: seq![number_of_packets as u8] }),
                forall|j: int|
                    0 <= j < i ==> #[trigger] messages.deep_view()[j + 1] == (MsgView {
                        header: head,
                        body: packet_body(chunk(m.body, j), (j + 1) as u8, None),
                    }),
            decreases number_of_packets - i,
        {
            proof {
                assert((i + 1) * CHUNK_SIZE <= number_of_packets * CHUNK_SIZE) by (nonlinear_arith)
                    requires i + 1 <= number_of_packets;
                assert(number_of_packets * CHUNK_SIZE <= body_len + CHUNK_SIZE - 1) by (nonlinear_arith)
                    requires number_of_packets == (body_len + CHUNK_SIZE - 1) / CHUNK_SIZE as int;
            }
            let start: usize = i * CHUNK_SIZE;
            let end: usize = if (i + 1) * CHUNK_SIZE < body_len { (i + 1) * CHUNK_SIZE } else { body_len };
            let mut part: Vec<u8> = Vec::new();
            let mut k: usize = start;
            while k < end
                invariant
                    start <= k <= end,
                    end <= body_len,
                    body_len == large_msg.msg_body@.len(),
                    part@ == large_msg.msg_body@.subrange(start as int, k as int),
                decreases end - k,
            {
                part.push(large_msg.msg_body[k]);
                k = k + 1;
                assert(part@ =~= large_msg.msg_body@.subrange(start as int, k as int));
            }
            assert(part@ == chunk(m.body, i as int));
            let chunk_msg = deconstruct_msg(Msg { header: head, msg_body: part }, (i + 1) as u8, None);
            let ghost before = messages.deep_view();
            messages.push(chunk_msg);
            assert(messages.deep_view() =~= before.push(chunk_msg@));
            i = i + 1;
        }
        assert(messages.deep_view() =~= fragments(m));
        proof {
            lemma_fragments_carry_body(m);
        }
    }
    messages
}

/// Puts numbered packets back together: the leading packet must carry the
/// number of packets that follow, and each following packet must carry its
/// position as its first byte; the rest of their bodies are joined.
pub fn reconstruct_msg(messages: Vec<Msg>) -> (r: Result<Msg, &'static str>)
    ensures
        match reassembled(messages.deep_view()) {
            Ok(v) => r matches Ok(m) && m@ == v,
            Err(e) => r matches Err(x) && x@ == e,
        },
{
    let ghost s = messages.deep_view();
    if messages.len() == 0 {
        return Err("No messages to reconstruct");
    }
    let first_msg = &messages[0];
    assert(s[0] == first_msg@);
    if first_msg.msg_body.len() == 0 {
        return Err("First message body empty");
    }
    let total_packets = first_msg.msg_body[0] as usize;
    if total_packets != messages.len() - 1 {
        return Err("Mismatch between number of packets and message count");
    }
    let mut full_body: Vec<u8> = Vec::new();
    let mut i: usize = 1;
    while i < messages.len()
        invariant
            s == messages.deep_view(),
            1 <= i <= messages@.len(),
            s[0].body.len() > 0,
            s[0].body[0] as int == s.len() - 1,
            full_body@ == joined_tails(s.skip(1).take(i - 1)),
            forall|j: int| 1 <= j < i ==> s[j].body.len() > 0 && s[j].body[0] as int == j,
        decreases messages@.len() - i,
    {
        let msg = &messages[i];
        assert(s[i as int] == msg@);
        if msg.msg_body.len() == 0 || msg.msg_body[0] as usize != i {
            assert(s[i as int].body.len() == 0 || s[i as int].body[0] as int != i as int);
            assert(has_bad_sequence(s));
            return Err("Invalid sequence number or empty message body");
        }
        let ghost before = full_body@;
        let mut k: usize = 1;
        while k < msg.msg_body.len()
            invariant
                1 <= k <= msg.msg_body@.len(),
                full_body@ == before + msg.msg_body@.subrange(1, k as int),
            decreases msg.msg_body@.len() - k,
        {
            full_body.push(msg.msg_body[k]);
            k = k + 1;
            assert(full_body@ =~= before + msg.msg_body@.subrange(1, k as int));
        }
        assert(s.skip(1).take(i as int).drop_last() =~= s.skip(1).take(i - 1));
        assert(msg.msg_body@.subrange(1, msg.msg_body@.len() as int) =~= msg.msg_body@.drop_first());
        i = i + 1;
    }
    assert(s.skip(1).take(i - 1) =~= s.skip(1));
    Ok(Msg { header: first_msg.header, msg_body: full_body })
}

proof fn lemma_packet_count_bounds(len: int)
    requires
        MAX_BODY_SIZE < len,
    ensures
        2 <= packet_count(len),
        122 * (packet_count(len) - 1) < len <= 122 * packet_count(len),
        len <= 255 * CHUNK_SIZE ==> packet_count(len) <= 255,
{
    let n = packet_count(len);
    assert(122 * n <= len + 121 < 122 * n + 122) by (nonlinear_arith)
        requires n == (len + 121) / 122, len > 0;
    assert(2 <= n) by (nonlinear_arith)
        requires 122 * n <= len + 121 < 122 * n + 122, 123 < len;
    if len <= 255 * CHUNK_SIZE {
        assert(n <= 255) by (nonlinear_arith)
            requires 122 * n <= len + 121, len <= 255 * 122;
    }
}

proof fn lemma_packet_tail(c: Seq<u8>, sequence_num: u8)
    requires
        c.len() <= CHUNK_SIZE,
    ensures
        packet_body(c, sequence_num, None).len() > 0,
        packet_body(c, sequence_num, None)[0] == sequence_num,
        packet_body(c, sequence_num, None).drop_first() == c,
{
    let b = seq![sequence_num] + c;
    assert(b[0] == sequence_num);
    assert(take_at_most(b, MAX_BODY_SIZE as int) == b);
    assert(b.drop_first() =~= c);
}

proof fn lemma_fragment_at(m: MsgView, j: int)
    requires
        MAX_BODY_SIZE < m.body.len(),
        1 <= j <= packet_count(m.body.len() as int),
    ensures
        fragments(m)[j] == (MsgView {
            header: m.header,
            body: packet_body(chunk(m.body, j - 1), j as u8, None),
        }),
        chunk(m.body, j - 1).len() <= CHUNK_SIZE,
        chunk(m.body, j - 1) == m.body.subrange(
            122 * (j - 1),
            if 122 * j < m.body.len() { 122 * j } else { m.body.len() as int },
        ),
{
    let len = m.body.len() as int;
    let n = packet_count(len);
    lemma_packet_count_bounds(len);
    assert(122 * (j - 1) < len) by (nonlinear_arith)
        requires j - 1 <= n - 1, 122 * (n - 1) < len;
    assert(fragments(m)[j] == Seq::new(
        n as nat,
        |i: int|
            MsgView {
                header: m.header,
                body: packet_body(chunk(m.body, i), (i + 1) as u8, None),
            },
    )[j - 1]);
}

proof fn lemma_joined_prefix(m: MsgView, k: int)
    requires
        MAX_BODY_SIZE < m.body.len(),
        0 <= k <= packet_count(m.body.len() as int),
    ensures
        joined_tails(fragments(m).skip(1).take(k)) == m.body.take(
            if 122 * k < m.body.len() { 122 * k } else { m.body.len() as int },
        ),
    decreases k,
{
    let len = m.body.len() as int;
    let n = packet_count(len);
    lemma_packet_count_bounds(len);
    let fs = fragments(m);
    let s = fs.skip(1).take(k);
    if k == 0 {
        assert(s.len() == 0);
        assert(m.body.take(0) =~= Seq::<u8>::empty());
    } else {
        let p = k - 1;
        lemma_joined_prefix(m, p);
        assert(s.drop_last() =~= fs.skip(1).take(p));
        assert(s.last() == fs[k]);
        lemma_fragment_at(m, k);
        let c = chunk(m.body, p);
        lemma_packet_tail(c, k as u8);
        assert(122 * p < len) by (nonlinear_arith)
            requires p <= n - 1, 122 * (n - 1) < len;
        assert(joined_tails(s) == joined_tails(fs.skip(1).take(p)) + c);
        let end = if 122 * k < len { 122 * k } else { len };
        assert(c == m.body.subrange(122 * p, end));
        assert(m.body.take(122 * p) + c =~= m.body.take(end));
    }
}

/// The packets after the leading one, each less its sequence number, carry
/// the whole body of a message that is cut, in order.
pub proof fn lemma_fragments_carry_body(m: MsgView)
    requires
        MAX_BODY_SIZE < m.body.len(),
    ensures
        joined_tails(fragments(m).skip(1)) == m.body,
{
    let len = m.body.len() as int;
    let n = packet_count(len);
    lemma_packet_count_bounds(len);
    lemma_joined_prefix(m, n);
    let t = fragments(m).skip(1);
    assert(t.len() == n);
    assert(t.take(n) =~= t);
    assert(m.body.take(len) =~= m.body);
}

/// Cutting a message into packets and putting them back together gives the
/// message again, for every body longer than one packet whose packet count
/// fits in the count byte.
pub proof fn lemma_reassemble_fragments(m: MsgView)
    requires
        MAX_BODY_SIZE < m.body.len() <= 255 * CHUNK_SIZE,
    ensures
        reassembled(fragments(m)) == Ok::<MsgView, Seq<char>>(m),
{
    let len = m.body.len() as int;
    let n = packet_count(len);
    lemma_packet_count_bounds(len);
    let fs = fragments(m);
    assert(fs.len() == n + 1);
    assert(fs[0].body == seq![n as u8]);
    assert(fs[0].body[0] as int == n);
    assert forall|j: int| 1 <= j < fs.len() implies !(#[trigger] fs[j].body.len() == 0 || fs[j].body[0] as int != j) by {
        lemma_fragment_at(m, j);
        lemma_packet_tail(chunk(m.body, j - 1), j as u8);
    }
    assert(!has_bad_sequence(fs));
    lemma_fragments_carry_body(m);
}

} // verus!
