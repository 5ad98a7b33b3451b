//! Domain names on the wire: label sequences with compression pointers.
use vstd::prelude::*;
use crate::buffer::{lemma_splice_concat, splice, BytePacketBuffer, DnsError, BUF_SIZE};
use crate::text::{chars_of, push_char};

verus! {

/// Pointer hops a single name read may take.
pub const MAX_JUMPS: u8 = 5;

/// Longest label on the wire.
pub const MAX_LABEL: usize = 63;

/// Longest encoded name on the wire.
pub const MAX_NAME: usize = 255;

/// `a` and `b` joined by a dot, where either may be empty.
pub open spec fn join_name(a: Seq<char>, b: Seq<char>) -> Seq<char> {
    if a.len() == 0 {
        b
    } else if b.len() == 0 {
        a
    } else {
        a + seq!['.'] + b
    }
}

/// The characters of raw label bytes.
pub open spec fn label_text(b: Seq<u8>) -> Seq<char> {
    b.map_values(|x: u8| x as char)
}

/// The name encoded at `p`, following pointers, with `hops` already taken.
pub open spec fn name_at(buf: Seq<u8>, p: int, hops: int) -> Result<Seq<char>, DnsError>
    decreases 6 - hops, buf.len() - p,
{
    if hops > MAX_JUMPS || hops < 0 {
        Err(DnsError::JumpLimitExceeded)
    } else if p < 0 || p >= buf.len() {
        Err(DnsError::EndOfBuffer)
    } else if buf[p] >= 192 {
        if hops >= MAX_JUMPS {
            Err(DnsError::JumpLimitExceeded)
        } else if p + 1 >= buf.len() {
            Err(DnsError::EndOfBuffer)
        } else {
            name_at(buf, (buf[p] - 192) * 256 + buf[p + 1], hops + 1)
        }
    } else if buf[p] == 0 {
        Ok(Seq::empty())
    } else if p + 1 + buf[p] > buf.len() {
        Err(DnsError::EndOfBuffer)
    } else {
        match name_at(buf, p + 1 + buf[p], hops) {
            Ok(rest) => Ok(join_name(label_text(buf.subrange(p + 1, p + 1 + buf[p])), rest)),
            Err(e) => Err(e),
        }
    }
}

/// Where the cursor stands after reading the name at `p`: past the
/// terminating zero, or past the first pointer.
pub open spec fn name_end(buf: Seq<u8>, p: int) -> int
    decreases buf.len() - p,
{
    if p < 0 || p >= buf.len() {
        p
    } else if buf[p] >= 192 {
        p + 2
    } else if buf[p] == 0 {
        p + 1
    } else if p + 1 + buf[p] > buf.len() {
        p
    } else {
        name_end(buf, p + 1 + buf[p])
    }
}

/// Pointer hops taken when reading the name at `p`, with `hops` already taken.
pub open spec fn hops_taken(buf: Seq<u8>, p: int, hops: int) -> int
    decreases 6 - hops, buf.len() - p,
{
    if hops > MAX_JUMPS || hops < 0 || p < 0 || p >= buf.len() {
        hops
    } else if buf[p] >= 192 {
        if hops >= MAX_JUMPS || p + 1 >= buf.len() {
            hops
        } else {
            hops_taken(buf, (buf[p] - 192) * 256 + buf[p + 1], hops + 1)
        }
    } else if buf[p] == 0 || p + 1 + buf[p] > buf.len() {
        hops
    } else {
        hops_taken(buf, p + 1 + buf[p], hops)
    }
}

/// Index of the first dot in `t`, or its length.
pub open spec fn first_dot(t: Seq<char>) -> nat
    decreases t.len(),
{
    if t.len() == 0 {
        0
    } else if t[0] == '.' {
        0
    } else {
        1 + first_dot(t.drop_first())
    }
}

/// The ASCII bytes of `t`.
pub open spec fn ascii_bytes(t: Seq<char>) -> Seq<u8> {
    t.map_values(|c: char| (c as u32) as u8)
}

pub open spec fn is_ascii_text(t: Seq<char>) -> bool {
    forall|i: int| 0 <= i < t.len() ==> (t[i] as u32) < 128
}

/// Each dot-separated label of `t` holds 1 to 63 ASCII characters.
pub open spec fn labels_ok(t: Seq<char>) -> bool
    decreases t.len(),
{
    let k = first_dot(t);
    &&& 1 <= k <= MAX_LABEL
    &&& is_ascii_text(t.subrange(0, k as int))
    &&& (k < t.len() ==> labels_ok(t.subrange((k + 1) as int, t.len() as int)))
}

/// A name that `write_qname` accepts: empty (the root), or ASCII labels of
/// 1 to 63 characters whose encoding takes at most 255 bytes.
pub open spec fn name_ok(s: Seq<char>) -> bool {
    s.len() == 0 || (s.len() + 2 <= MAX_NAME && labels_ok(s))
}

/// Uncompressed wire form of the labels of a non-empty name.
pub open spec fn encode_labels(t: Seq<char>) -> Seq<u8>
    decreases t.len(),
{
    let k = first_dot(t);
    seq![k as u8] + ascii_bytes(t.subrange(0, k as int)) + if k < t.len() {
        encode_labels(t.subrange((k + 1) as int, t.len() as int))
    } else {
        seq![0u8]
    }
}

/// Uncompressed wire form of a name.
pub open spec fn encode_name(s: Seq<char>) -> Seq<u8> {
    if s.len() == 0 {
        seq![0u8]
    } else {
        encode_labels(s)
    }
}

proof fn lemma_first_dot(t: Seq<char>, m: int)
    requires
        0 <= m <= t.len(),
        forall|i: int| 0 <= i < m ==> t[i] != '.',
        m == t.len() || t[m] == '.',
    ensures
        first_dot(t) == m,
    decreases m,
{
    if m > 0 {
        lemma_first_dot(t.drop_first(), m - 1);
    }
}

proof fn lemma_first_dot_bound(t: Seq<char>)
    ensures
        first_dot(t) <= t.len(),
        first_dot(t) < t.len() ==> t[first_dot(t) as int] == '.',
        forall|i: int| 0 <= i < first_dot(t) ==> t[i] != '.',
    decreases t.len(),
{
    if t.len() > 0 && t[0] != '.' {
        lemma_first_dot_bound(t.drop_first());
        assert forall|i: int| 0 <= i < first_dot(t) implies t[i] != '.' by {
            if i > 0 {
                assert(t[i] == t.drop_first()[i - 1]);
            }
        }
    }
}

proof fn lemma_ascii_push(t: Seq<char>, c: char)
    ensures
        is_ascii_text(t.push(c)) == (is_ascii_text(t) && (c as u32) < 128),
{
    assert forall|i: int| 0 <= i < t.len() implies t.push(c)[i] == t[i] by {}
    assert(t.push(c)[t.len() as int] == c);
}

proof fn lemma_encode_len(t: Seq<char>)
    ensures
        encode_labels(t).len() == t.len() + 2,
    decreases t.len(),
{
    let k = first_dot(t);
    lemma_first_dot_bound(t);
    if k < t.len() {
        lemma_encode_len(t.subrange((k + 1) as int, t.len() as int));
    }
}

proof fn lemma_join_assoc(a: Seq<char>, l: Seq<char>, r: Seq<char>)
    requires
        l.len() > 0,
    ensures
        join_name(a, join_name(l, r)) == join_name(join_name(a, l), r),
{
    assert(join_name(a, join_name(l, r)) =~= join_name(join_name(a, l), r));
}


/// Whether the labels of `v` are all 1 to 63 ASCII characters.
fn labels_valid(v: &Vec<char>) -> (r: bool)
    requires
        v@.len() > 0,
    ensures
        r == labels_ok(v@),
{
    let n = v.len();
    let mut j: usize = 0;
    assert(v@.subrange(0, n as int) =~= v@);
    loop
        invariant
            n == v@.len(),
            j <= n,
            labels_ok(v@) == labels_ok(v@.subrange(j as int, n as int)),
        decreases n - j,
    {
        let ghost t = v@.subrange(j as int, n as int);
        let mut k: usize = j;
        let mut ascii = true;
        while k < n && v[k] != '.'
            invariant
                j <= k <= n,
                n == v@.len(),
                forall|i: int| j <= i < k ==> v@[i] != '.',
                ascii == is_ascii_text(v@.subrange(j as int, k as int)),
            decreases n - k,
        {
            proof {
                lemma_ascii_push(v@.subrange(j as int, k as int), v@[k as int]);
                assert(v@.subrange(j as int, k + 1) =~= v@.subrange(j as int, k as int).push(v@[k as int]));
            }
            if (v[k] as u32) >= 128 {
                ascii = false;
            }
            k = k + 1;
        }
        proof {
            lemma_first_dot(t, k - j);
            assert(t.subrange(0, (k - j) as int) =~= v@.subrange(j as int, k as int));
        }
        if k == j || k - j > MAX_LABEL || !ascii {
            return false;
        }
        if k == n {
            return true;
        }
        assert(t.subrange((k - j) + 1, t.len() as int) =~= v@.subrange(k + 1, n as int));
        j = k + 1;
    }
}

/// A name read succeeds only along a path of at most five pointer hops:
/// any read that would need a sixth fails with `JumpLimitExceeded`.
pub proof fn lemma_jump_bound(buf: Seq<u8>, p: int, hops: int)
    requires
        0 <= hops <= MAX_JUMPS,
        name_at(buf, p, hops) is Ok,
    ensures
        hops <= hops_taken(buf, p, hops) <= MAX_JUMPS,
    decreases 6 - hops, buf.len() - p,
{
    if 0 <= p < buf.len() {
        if buf[p] >= 192 {
            if hops < MAX_JUMPS && p + 1 < buf.len() {
                lemma_jump_bound(buf, (buf[p] - 192) * 256 + buf[p + 1], hops + 1);
            }
        } else if buf[p] != 0 && p + 1 + buf[p] <= buf.len() {
            lemma_jump_bound(buf, p + 1 + buf[p], hops);
        }
    }
}

proof fn lemma_ascii_text(t: Seq<char>)
    requires
        is_ascii_text(t),
    ensures
        label_text(ascii_bytes(t)) == t,
{
    assert forall|i: int| 0 <= i < t.len() implies label_text(ascii_bytes(t))[i] == t[i] by {
        let c = t[i];
        let u = c as u32;
        vstd::utf8::char_u32_cast(c, u);
        assert((u as u8) as char == u as char);
    }
    assert(label_text(ascii_bytes(t)) =~= t);
}

proof fn lemma_labels_round_trip(buf: Seq<u8>, p: int, t: Seq<char>, h: int)
    requires
        labels_ok(t),
        0 <= h <= MAX_JUMPS,
        0 <= p,
        p + t.len() + 2 <= buf.len(),
        buf.subrange(p, p + t.len() + 2) == encode_labels(t),
    ensures
        name_at(buf, p, h) == Ok::<Seq<char>, DnsError>(t),
        name_end(buf, p) == p + t.len() + 2,
    decreases t.len(),
{
    let k = first_dot(t) as int;
    let e = encode_labels(t);
    lemma_first_dot_bound(t);
    lemma_encode_len(t);
    assert(buf[p] == e[0]);
    assert(e[0] == k as u8);
    let lb = buf.subrange(p + 1, p + 1 + k);
    assert forall|i: int| 0 <= i < k implies lb[i] == ascii_bytes(t.subrange(0, k))[i] by {
        assert(lb[i] == buf.subrange(p, p + t.len() + 2)[1 + i]);
        assert(e[1 + i] == ascii_bytes(t.subrange(0, k))[i]);
    }
    assert(lb =~= ascii_bytes(t.subrange(0, k)));
    lemma_ascii_text(t.subrange(0, k));
    if k < t.len() {
        let t2 = t.subrange(k + 1, t.len() as int);
        lemma_encode_len(t2);
        assert(e == seq![k as u8] + ascii_bytes(t.subrange(0, k)) + encode_labels(t2));
        assert(e.subrange(1 + k, e.len() as int) =~= encode_labels(t2));
        assert forall|i: int| 0 <= i < t2.len() + 2 implies buf[p + 1 + k + i] == encode_labels(t2)[i] by {
            assert(buf[p + 1 + k + i] == buf.subrange(p, p + t.len() + 2)[1 + k + i]);
            assert(e[1 + k + i] == e.subrange(1 + k, e.len() as int)[i]);
        }
        assert(buf.subrange(p + 1 + k, p + 1 + k + t2.len() + 2) =~= encode_labels(t2));
        lemma_labels_round_trip(buf, p + 1 + k, t2, h);
        lemma_first_dot_bound(t2);
        assert(labels_ok(t2));
        assert(first_dot(t2) >= 1);
        assert(t2.len() > 0);
        assert(label_text(lb) == t.subrange(0, k));
        assert(t =~= t.subrange(0, k) + seq!['.'] + t2);
    } else {
        assert(buf[p + 1 + k] == buf.subrange(p, p + t.len() + 2)[k + 1]);
        assert(e[k + 1] == 0);
        assert(name_end(buf, p + 1 + k) == p + k + 2);
        assert(name_at(buf, p + 1 + k, h) == Ok::<Seq<char>, DnsError>(Seq::empty()));
        assert(join_name(label_text(lb), Seq::empty()) == t);
        assert(t.subrange(0, k) =~= t);
    }
}

/// Reading back the bytes a valid name was written as gives that name, and
/// leaves the cursor just past them.
pub proof fn lemma_name_round_trip(buf: Seq<u8>, p: int, s: Seq<char>)
    requires
        name_ok(s),
        0 <= p,
        p + encode_name(s).len() <= buf.len(),
        buf.subrange(p, p + encode_name(s).len()) == encode_name(s),
    ensures
        name_at(buf, p, 0) == Ok::<Seq<char>, DnsError>(s),
        name_end(buf, p) == p + encode_name(s).len(),
{
    if s.len() == 0 {
        assert(buf[p] == buf.subrange(p, p + 1)[0]);
        assert(s =~= Seq::<char>::empty());
    } else {
        lemma_encode_len(s);
        lemma_labels_round_trip(buf, p, s, 0);
    }
}

pub proof fn lemma_encoded_name_len(s: Seq<char>)
    requires
        name_ok(s),
    ensures
        encode_name(s).len() == if s.len() == 0 {
            1
        } else {
            s.len() + 2
        },
{
    if s.len() > 0 {
        lemma_encode_len(s);
    }
}

/// Whether `write_qname` accepts `s`.
pub fn name_ok_exec(s: &str) -> (r: bool)
    ensures
        r == name_ok(s@),
{
    let v = chars_of(s);
    if v.len() == 0 {
        return true;
    }
    v.len() <= MAX_NAME - 2 && labels_valid(&v)
}

impl BytePacketBuffer {
    /// Read a possibly compressed name at the cursor. The cursor moves past
    /// the name's own bytes, never into the bytes a pointer leads to.
    pub fn read_qname(&mut self) -> (r: Result<String, DnsError>)
        requires
            old(self).wf(),
        ensures
            final(self).wf(),
            final(self).buf@ == old(self).buf@,
            name_at(old(self).buf@, old(self).pos as int, 0) matches Ok(n) ==> (r matches Ok(s)
                && s@ == n && final(self).pos == name_end(old(self).buf@, old(self).pos as int)),
            name_at(old(self).buf@, old(self).pos as int, 0) matches Err(e) ==> r == Err::<
                String,
                DnsError,
            >(e),
    {
        let ghost buf = self.buf@;
        let ghost start = self.pos as int;
        let mut p: usize = self.pos;
        let mut hops: u8 = 0;
        let mut saved: usize = 0;
        let mut out = String::new();
        loop
            invariant
                self.wf(),
                self.buf@ == buf,
                buf == old(self).buf@,
                start == old(self).pos,
                self.pos == start,
                buf.len() == BUF_SIZE,
                0 <= start <= BUF_SIZE,
                hops <= MAX_JUMPS,
                p <= BUF_SIZE,
                name_at(buf, start, 0) == match name_at(buf, p as int, hops as int) {
                    Ok(rest) => Ok(join_name(out@, rest)),
                    Err(e) => Err(e),
                },
                hops == 0 ==> name_end(buf, start) == name_end(buf, p as int),
                hops > 0 ==> name_end(buf, start) == saved,
                hops > 0 ==> saved <= BUF_SIZE,
            decreases 6 - hops, BUF_SIZE - p,
        {
            let len = self.get(p)?;
            if len >= 192 {
                if hops >= MAX_JUMPS {
                    return Err(DnsError::JumpLimitExceeded);
                }
                let b2 = self.get(p + 1)?;
                if hops == 0 {
                    saved = p + 2;
                }
                let ghost base = p as int;
                p = (len as usize - 192) * 256 + b2 as usize;
                assert(name_at(buf, base, hops as int) == name_at(buf, p as int, hops + 1));
                hops = hops + 1;
                if p > BUF_SIZE {
                    assert(name_at(buf, p as int, hops as int) == Err::<Seq<char>, DnsError>(DnsError::EndOfBuffer));
                    p = BUF_SIZE;
                }
            } else if len == 0 {
                proof {
                    assert(join_name(out@, Seq::empty()) == out@);
                }
                if hops == 0 {
                    saved = p + 1;
                }
                self.pos = saved;
                return Ok(out);
            } else {
                let l = len as usize;
                if l > BUF_SIZE - (p + 1) {
                    return Err(DnsError::EndOfBuffer);
                }
                let ghost before = out@;
                let ghost label = label_text(buf.subrange(p + 1, p + 1 + l));
                proof {
                    lemma_join_assoc(before, label, name_at(buf, p + 1 + l, hops as int)->Ok_0);
                }
                if out.unicode_len() > 0 {
                    push_char(&mut out, '.');
                }
                let mut i: usize = 0;
                while i < l
                    invariant
                        self.buf@ == buf,
                        buf.len() == BUF_SIZE,
                        p + 1 + l <= BUF_SIZE,
                        i <= l,
                        out@ == (if before.len() == 0 {
                            Seq::empty()
                        } else {
                            before + seq!['.']
                        }) + label_text(buf.subrange(p + 1, p + 1 + i)),
                    decreases l - i,
                {
                    push_char(&mut out, self.buf[p + 1 + i] as char);
                    i = i + 1;
                    assert(label_text(buf.subrange(p + 1, p + 1 + i)) =~= label_text(
                        buf.subrange(p + 1, p + i),
                    ).push(buf[p + i] as char));
                }
                assert(out@ =~= join_name(before, label));
                assert(name_at(buf, p as int, hops as int) == match name_at(buf, p + 1 + l, hops as int) {
                    Ok(rest) => Ok(join_name(label, rest)),
                    Err(e) => Err(e),
                });
                p = p + 1 + l;
            }
        }
    }

    /// Write `qname` uncompressed: each label as a length byte and its
    /// characters, then a zero byte.
    pub fn write_qname(&mut self, qname: &str) -> (r: Result<(), DnsError>)
        requires
            old(self).wf(),
        ensures
            final(self).wf(),
            !name_ok(qname@) ==> r == Err::<(), DnsError>(DnsError::MalformedPacket)
                && *final(self) == *old(self),
            name_ok(qname@) && old(self).pos + encode_name(qname@).len() > BUF_SIZE ==> r == Err::<
                (),
                DnsError,
            >(DnsError::EndOfBuffer) && *final(self) == *old(self),
            name_ok(qname@) && old(self).pos + encode_name(qname@).len() <= BUF_SIZE ==> r is Ok
                && final(self).pos == old(self).pos + encode_name(qname@).len()
                && final(self).buf@ == splice(old(self).buf@, old(self).pos as int, encode_name(qname@)),
    {
        let v = chars_of(qname);
        let n = v.len();
        if n == 0 {
            return self.write_u8(0);
        }
        if n > MAX_NAME - 2 || !labels_valid(&v) {
            return Err(DnsError::MalformedPacket);
        }
        proof {
            lemma_encode_len(v@);
        }
        if n + 2 > BUF_SIZE - self.pos {
            return Err(DnsError::EndOfBuffer);
        }
        let ghost buf0 = self.buf@;
        let ghost pos0 = self.pos as int;
        let mut j: usize = 0;
        assert(v@.subrange(0, n as int) =~= v@);
        assert(splice(buf0, pos0, encode_labels(v@).subrange(0, 0)) =~= buf0);
        assert(encode_labels(v@).subrange(0, 0) + encode_labels(v@) =~= encode_labels(v@));
        loop
            invariant
                self.wf(),
                v@ == qname@,
                n == v@.len(),
                0 < n,
                pos0 + n + 2 <= BUF_SIZE,
                0 <= pos0,
                name_ok(qname@),
                buf0.len() == BUF_SIZE,
                encode_labels(v@).len() == n + 2,
                buf0 == old(self).buf@,
                pos0 == old(self).pos,
                j < n,
                self.pos == pos0 + j,
                labels_ok(v@.subrange(j as int, n as int)),
                self.buf@ == splice(buf0, pos0, encode_labels(v@).subrange(0, j as int)),
                encode_labels(v@) == encode_labels(v@).subrange(0, j as int) + encode_labels(
                    v@.subrange(j as int, n as int),
                ),
            decreases n - j,
        {
            let ghost t = v@.subrange(j as int, n as int);
            let ghost w = encode_labels(v@).subrange(0, j as int);
            let mut k: usize = j;
            while k < n && v[k] != '.'
                invariant
                    j <= k <= n,
                    n == v@.len(),
                    forall|i: int| j <= i < k ==> v@[i] != '.',
                decreases n - k,
            {
                k = k + 1;
            }
            proof {
                lemma_first_dot(t, k - j);
                lemma_encode_len(t);
                assert(t.subrange(0, (k - j) as int) =~= v@.subrange(j as int, k as int));
                assert(1 <= k - j <= MAX_LABEL);
                lemma_splice_concat(buf0, pos0, w, seq![(k - j) as u8]);
            }
            self.write_u8((k - j) as u8)?;
            let mut i: usize = j;
            while i < k
                invariant
                    self.wf(),
                    j <= i <= k <= n,
                    n == v@.len(),
                    pos0 + n + 2 <= BUF_SIZE,
                    w.len() == j,
                    buf0.len() == BUF_SIZE,
                    0 <= pos0,
                    1 <= k - j <= MAX_LABEL,
                    is_ascii_text(v@.subrange(j as int, k as int)),
                    self.pos == pos0 + i + 1,
                    self.buf@ == splice(
                        buf0,
                        pos0,
                        w + seq![(k - j) as u8] + ascii_bytes(v@.subrange(j as int, i as int)),
                    ),
                decreases k - i,
            {
                let c = v[i];
                assert(v@.subrange(j as int, k as int)[i - j] == c);
                let b = (c as u32) as u8;
                proof {
                    lemma_splice_concat(
                        buf0,
                        pos0,
                        w + seq![(k - j) as u8] + ascii_bytes(v@.subrange(j as int, i as int)),
                        seq![b],
                    );
                    assert(ascii_bytes(v@.subrange(j as int, i + 1)) =~= ascii_bytes(
                        v@.subrange(j as int, i as int),
                    ).push(b));
                    assert(w + seq![(k - j) as u8] + ascii_bytes(v@.subrange(j as int, i + 1))
                        =~= w + seq![(k - j) as u8] + ascii_bytes(v@.subrange(j as int, i as int))
                        + seq![b]);
                }
                self.write_u8(b)?;
                i = i + 1;
            }
            let ghost head = seq![(k - j) as u8] + ascii_bytes(t.subrange(0, (k - j) as int));
            assert(t.subrange(0, (k - j) as int) =~= v@.subrange(j as int, k as int));
            if k == n {
                proof {
                    lemma_splice_concat(buf0, pos0, w + head, seq![0u8]);
                    assert(encode_labels(t) =~= head + seq![0u8]);
                    assert(encode_labels(v@) =~= w + head + seq![0u8]);
                }
                self.write_u8(0)?;
                return Ok(());
            }
            proof {
                let t2 = v@.subrange(k + 1, n as int);
                assert(t.subrange((k - j) + 1, t.len() as int) =~= t2);
                assert(encode_labels(t) == head + encode_labels(t2));
                assert(encode_labels(v@).subrange(0, k + 1) =~= w + head);
                assert(encode_labels(v@) =~= encode_labels(v@).subrange(0, k + 1) + encode_labels(t2));
                assert(labels_ok(t2));
                lemma_first_dot_bound(t2);
                assert(first_dot(t2) >= 1);
                assert(t2.len() >= 1);
            }
            j = k + 1;
        }
    }
}

} // verus!
