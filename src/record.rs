use vstd::prelude::*;

verus! {

/// The eight bytes of `v`, least significant first.
pub open spec fn le_bytes(v: u64) -> Seq<u8> {
    seq![
        (v & 0xff) as u8,
        ((v >> 8u64) & 0xff) as u8,
        ((v >> 16u64) & 0xff) as u8,
        ((v >> 24u64) & 0xff) as u8,
        ((v >> 32u64) & 0xff) as u8,
        ((v >> 40u64) & 0xff) as u8,
        ((v >> 48u64) & 0xff) as u8,
        ((v >> 56u64) & 0xff) as u8,
    ]
}

/// The number whose eight bytes, least significant first, start `b`.
pub open spec fn from_le(b: Seq<u8>) -> u64
    recommends
        b.len() >= 8,
{
    (b[0] as u64) | ((b[1] as u64) << 8u64) | ((b[2] as u64) << 16u64) | ((b[3] as u64) << 24u64)
        | ((b[4] as u64) << 32u64) | ((b[5] as u64) << 40u64) | ((b[6] as u64) << 48u64)
        | ((b[7] as u64) << 56u64)
}

/// The file content that records a retry entry: the due time, the length
/// of the destination's name and the name, the length of the source's name
/// and the name, then the mail's body.
pub open spec fn encoded(due: u64, destination: Seq<u8>, source: Seq<u8>, body: Seq<u8>) -> Seq<u8> {
    le_bytes(due) + le_bytes(destination.len() as u64) + destination + le_bytes(source.len() as u64) + source + body
}

/// What a record holds, if it is well formed: due time, destination name,
/// source name and body.
pub open spec fn decoded(b: Seq<u8>) -> Option<(u64, Seq<u8>, Seq<u8>, Seq<u8>)> {
    if b.len() < 16 {
        None
    } else {
        let n = from_le(b.subrange(8, 16));
        if n > b.len() - 16 {
            None
        } else {
            let o = 16 + n;
            if b.len() < o + 8 {
                None
            } else {
                let m = from_le(b.subrange(o, o + 8));
                if m > b.len() - (o + 8) {
                    None
                } else {
                    Some((
                        from_le(b.subrange(0, 8)),
                        b.subrange(16, o),
                        b.subrange(o + 8, o + 8 + m),
                        b.subrange(o + 8 + m, b.len() as int),
                    ))
                }
            }
        }
    }
}

proof fn lemma_le_round_trip(v: u64)
    ensures
        from_le(le_bytes(v)) == v,
{
    let b = le_bytes(v);
    let b0 = b[0];
    let b1 = b[1];
    let b2 = b[2];
    let b3 = b[3];
    let b4 = b[4];
    let b5 = b[5];
    let b6 = b[6];
    let b7 = b[7];
    assert(((b0 as u64) | ((b1 as u64) << 8u64) | ((b2 as u64) << 16u64) | ((b3 as u64) << 24u64)
        | ((b4 as u64) << 32u64) | ((b5 as u64) << 40u64) | ((b6 as u64) << 48u64)
        | ((b7 as u64) << 56u64)) == v) by (bit_vector)
        requires
            b0 == (v & 0xff) as u8,
            b1 == ((v >> 8u64) & 0xff) as u8,
            b2 == ((v >> 16u64) & 0xff) as u8,
            b3 == ((v >> 24u64) & 0xff) as u8,
            b4 == ((v >> 32u64) & 0xff) as u8,
            b5 == ((v >> 40u64) & 0xff) as u8,
            b6 == ((v >> 48u64) & 0xff) as u8,
            b7 == ((v >> 56u64) & 0xff) as u8,
    ;
}

/// Reading back a written retry record gives the same due time,
/// destination name, source name and body.
pub proof fn lemma_record_round_trip(due: u64, destination: Seq<u8>, source: Seq<u8>, body: Seq<u8>)
    requires
        destination.len() <= u64::MAX,
        source.len() <= u64::MAX,
    ensures
        decoded(encoded(due, destination, source, body)) == Some((due, destination, source, body)),
{
    let e = encoded(due, destination, source, body);
    let n = destination.len() as u64;
    let m = source.len() as u64;
    let o = 16 + n;
    lemma_le_round_trip(due);
    lemma_le_round_trip(n);
    lemma_le_round_trip(m);
    assert(e.subrange(0, 8) =~= le_bytes(due));
    assert(e.subrange(8, 16) =~= le_bytes(n));
    assert(e.subrange(16, o) =~= destination);
    assert(e.subrange(o, o + 8) =~= le_bytes(m));
    assert(e.subrange(o + 8, o + 8 + m) =~= source);
    assert(e.subrange(o + 8 + m, e.len() as int) =~= body);
}

fn push_le(out: &mut Vec<u8>, v: u64)
    ensures
        final(out)@ == old(out)@ + le_bytes(v),
{
    out.push((v & 0xff) as u8);
    out.push(((v >> 8u64) & 0xff) as u8);
    out.push(((v >> 16u64) & 0xff) as u8);
    out.push(((v >> 24u64) & 0xff) as u8);
    out.push(((v >> 32u64) & 0xff) as u8);
    out.push(((v >> 40u64) & 0xff) as u8);
    out.push(((v >> 48u64) & 0xff) as u8);
    out.push(((v >> 56u64) & 0xff) as u8);
    assert(final(out)@ =~= old(out)@ + le_bytes(v));
}

fn push_all(out: &mut Vec<u8>, src: &[u8])
    ensures
        final(out)@ == old(out)@ + src@,
{
    let ghost start = out@;
    let mut i: usize = 0;
    while i < src.len()
        invariant
            0 <= i <= src@.len(),
            out@ == start + src@.subrange(0, i as int),
        decreases src@.len() - i,
    {
        out.push(src[i]);
        i = i + 1;
        assert(out@ =~= start + src@.subrange(0, i as int));
    }
    assert(src@.subrange(0, src@.len() as int) =~= src@);
}

fn read_le(b: &[u8], at: usize) -> (r: u64)
    requires
        at + 8 <= b@.len(),
    ensures
        r == from_le(b@.subrange(at as int, at + 8)),
{
    (b[at] as u64) | ((b[at + 1] as u64) << 8u64) | ((b[at + 2] as u64) << 16u64)
        | ((b[at + 3] as u64) << 24u64) | ((b[at + 4] as u64) << 32u64)
        | ((b[at + 5] as u64) << 40u64) | ((b[at + 6] as u64) << 48u64)
        | ((b[at + 7] as u64) << 56u64)
}

fn copy_range(b: &[u8], from: usize, to: usize) -> (r: Vec<u8>)
    requires
        from <= to <= b@.len(),
    ensures
        r@ == b@.subrange(from as int, to as int),
{
    let mut r: Vec<u8> = Vec::new();
    let mut i: usize = from;
    while i < to
        invariant
            from <= i <= to <= b@.len(),
            r@ == b@.subrange(from as int, i as int),
        decreases to - i,
    {
        r.push(b[i]);
        i = i + 1;
        assert(r@ =~= b@.subrange(from as int, i as int));
    }
    r
}

/// Writes the record of a retry entry.
pub fn encode_entry(due: u64, destination: &[u8], source: &[u8], body: &[u8]) -> (r: Vec<u8>)
    ensures
        r@ == encoded(due, destination@, source@, body@),
{
    let mut out: Vec<u8> = Vec::new();
    push_le(&mut out, due);
    push_le(&mut out, destination.len() as u64);
    push_all(&mut out, destination);
    push_le(&mut out, source.len() as u64);
    push_all(&mut out, source);
    push_all(&mut out, body);
    assert(out@ =~= encoded(due, destination@, source@, body@));
    out
}

/// Reads a retry record back: its due time, destination name, source name
/// and body, or `None` where the bytes are too short for what they announce.
pub fn decode_entry(b: &[u8]) -> (r: Option<(u64, Vec<u8>, Vec<u8>, Vec<u8>)>)
    ensures
        match (r, decoded(b@)) {
            (Some((due, dst, src, body)), Some((due2, dst2, src2, body2))) =>
                due == due2 && dst@ == dst2 && src@ == src2 && body@ == body2,
            (None, None) => true,
            _ => false,
        },
{
    if b.len() < 16 {
        return None;
    }
    let n = read_le(b, 8);
    if n > (b.len() - 16) as u64 {
        return None;
    }
    let o = 16 + n as usize;
    if b.len() - o < 8 {
        return None;
    }
    let m = read_le(b, o);
    if m > (b.len() - (o + 8)) as u64 {
        return None;
    }
    let due = read_le(b, 0);
    let end = o + 8 + m as usize;
    let dst = copy_range(b, 16, o);
    let src = copy_range(b, o + 8, end);
    let body = copy_range(b, end, b.len());
    Some((due, dst, src, body))
}

} // verus!
