use vstd::prelude::*;

verus! {

/// A domain name: dot-separated text, or bytes already in the
/// length-prefixed wire layout.
#[derive(Debug)]
pub enum DomainName {
    Text(String),
    Wire(Vec<u8>),
}

/// Position of the first `.` (byte 46) in `name`, or `name.len()` when none
/// occurs.
pub open spec fn first_dot(name: Seq<u8>) -> int
    decreases name.len(),
{
    if name.len() == 0 {
        0
    } else if name[0] == 46 {
        0
    } else {
        1 + first_dot(name.skip(1))
    }
}

pub proof fn lemma_first_dot_bounds(name: Seq<u8>)
    ensures
        0 <= first_dot(name) <= name.len(),
        first_dot(name) < name.len() ==> name[first_dot(name)] == 46,
        forall|i: int| 0 <= i < first_dot(name) ==> name[i] != 46,
    decreases name.len(),
{
    if name.len() == 0 {
    } else if name[0] == 46 {
    } else {
        lemma_first_dot_bounds(name.skip(1));
        assert forall|i: int| 0 <= i < first_dot(name) implies name[i] != 46 by {
            if i > 0 {
                assert(name.skip(1)[i - 1] != 46);
            }
        }
    }
}

/// `first_dot(s) == k` exactly when no dot occurs before `k` and a dot (or
/// the end) stands at `k`.
pub proof fn lemma_first_dot_at(s: Seq<u8>, k: int)
    requires
        0 <= k <= s.len(),
        forall|i: int| 0 <= i < k ==> s[i] != 46,
        k < s.len() ==> s[k] == 46,
    ensures
        first_dot(s) == k,
    decreases k,
{
    if k == 0 {
    } else {
        assert(s[0] != 46);
        assert forall|i: int| 0 <= i < k - 1 implies s.skip(1)[i] != 46 by {
            assert(s.skip(1)[i] == s[i + 1]);
        }
        if k - 1 < s.skip(1).len() {
            assert(s.skip(1)[k - 1] == s[k]);
        }
        lemma_first_dot_at(s.skip(1), k - 1);
    }
}

/// Wire encoding of a nonempty textual name: each dot-separated piece as a
/// length byte followed by its bytes, ending with a zero byte.
pub open spec fn spec_encode_labels(name: Seq<u8>) -> Seq<u8>
    decreases name.len(),
{
    let k = first_dot(name);
    if 0 <= k < name.len() {
        seq![k as u8] + name.take(k) + spec_encode_labels(name.skip(k + 1))
    } else {
        seq![name.len() as u8] + name + seq![0u8]
    }
}

/// Wire encoding of a textual name; the empty root name is a single zero
/// byte.
pub open spec fn spec_encode_name(name: Seq<u8>) -> Seq<u8> {
    if name.len() == 0 {
        seq![0u8]
    } else {
        spec_encode_labels(name)
    }
}

/// Every dot-separated label of `name` is 1 to 63 bytes long.
pub open spec fn labels_wf(name: Seq<u8>) -> bool
    decreases name.len(),
{
    let k = first_dot(name);
    if 0 <= k < name.len() {
        1 <= k <= 63 && labels_wf(name.skip(k + 1))
    } else {
        1 <= name.len() <= 63
    }
}

/// Raw bytes of `d` from `off` up to the first zero byte or the end.
pub open spec fn tail_from(d: Seq<u8>, off: int) -> Seq<u8>
    decreases d.len() - off,
{
    if off < 0 || off >= d.len() || d[off] == 0 {
        Seq::empty()
    } else {
        seq![d[off]] + tail_from(d, off + 1)
    }
}

/// Decode the (possibly pointer-compressed) name at `pos` in datagram `d`:
/// the uncompressed wire bytes of the name together with the cursor just
/// past it, or nothing when the name is malformed or truncated. A length
/// byte of 1 to 63 prefixes a label; a byte with both top bits set starts a
/// two-byte pointer, which must reference an earlier offset and always ends
/// the name; the reserved top-bit patterns fail.
pub open spec fn spec_decode_name(d: Seq<u8>, pos: int) -> Option<(Seq<u8>, int)>
    decreases d.len() - pos,
{
    if pos < 0 || pos >= d.len() {
        None
    } else if d[pos] == 0 {
        Some((seq![0u8], pos + 1))
    } else if d[pos] < 64 {
        if pos + 1 + d[pos] <= d.len() {
            match spec_decode_name(d, pos + 1 + d[pos]) {
                Some(rest) => Some(
                    (seq![d[pos]] + d.subrange(pos + 1, pos + 1 + d[pos]) + rest.0, rest.1),
                ),
                None => None,
            }
        } else {
            None
        }
    } else if d[pos] >= 192 {
        if pos + 1 < d.len() {
            let off = (d[pos] - 192) * 256 + d[pos + 1];
            if off < pos {
                Some((tail_from(d, off) + seq![0u8], pos + 2))
            } else {
                None
            }
        } else {
            None
        }
    } else {
        None
    }
}

/// `n` is a well-formed uncompressed wire-form name: length-prefixed labels
/// of 1 to 63 bytes each, terminated by a single zero byte.
pub open spec fn wire_name_wf(n: Seq<u8>) -> bool
    decreases n.len(),
{
    if n.len() == 0 {
        false
    } else if n[0] == 0 {
        n.len() == 1
    } else if n[0] < 64 {
        if 1 + n[0] < n.len() {
            wire_name_wf(n.skip(1 + n[0]))
        } else {
            false
        }
    } else {
        false
    }
}

/// A well-formed name is never empty.
pub proof fn lemma_wire_name_nonempty(n: Seq<u8>)
    requires
        wire_name_wf(n),
    ensures
        n.len() >= 1,
{
}

/// A well-formed uncompressed name embedded at `pos` in a datagram decodes
/// to exactly its own bytes, with the cursor ending just past it.
pub proof fn lemma_wire_name_self_decode(d: Seq<u8>, pos: int, n: Seq<u8>)
    requires
        wire_name_wf(n),
        0 <= pos,
        pos + n.len() <= d.len(),
        d.subrange(pos, pos + n.len()) == n,
    ensures
        spec_decode_name(d, pos) == Some((n, pos + n.len())),
    decreases n.len(),
{
    assert(d[pos] == n[0]) by {
        assert(d.subrange(pos, pos + n.len())[0] == d[pos]);
    }
    if n[0] == 0 {
        assert(n =~= seq![0u8]);
    } else {
        let b = n[0] as int;
        let rest = n.skip(1 + b);
        assert forall|i: int| 0 <= i < n.len() implies n[i] == d[pos + i] by {
            assert(d.subrange(pos, pos + n.len())[i] == d[pos + i]);
        }
        assert(d.subrange(pos + 1 + b, pos + n.len()) =~= rest) by {
            assert(forall|i: int| 0 <= i < rest.len() ==> rest[i] == n[1 + b + i]);
        }
        lemma_wire_name_self_decode(d, pos + 1 + b, rest);
        assert(d.subrange(pos + 1, pos + 1 + b) =~= n.subrange(1, 1 + b));
        assert(seq![n[0]] + n.subrange(1, 1 + b) + rest =~= n);
        assert(spec_decode_name(d, pos) == Some((n, pos + n.len())));
    }
}

/// The encoder output for a name with well-formed labels is a well-formed
/// uncompressed wire name.
pub proof fn lemma_encode_labels_wf(name: Seq<u8>)
    requires
        labels_wf(name),
    ensures
        wire_name_wf(spec_encode_labels(name)),
    decreases name.len(),
{
    let k = first_dot(name);
    let e = spec_encode_labels(name);
    if 0 <= k < name.len() {
        lemma_encode_labels_wf(name.skip(k + 1));
        let rest = spec_encode_labels(name.skip(k + 1));
        lemma_wire_name_nonempty(rest);
        assert(e[0] == k as u8);
        assert(e[0] as int == k);
        assert(e.len() == 1 + k + rest.len());
        assert(e.skip(1 + k) =~= rest);
        assert(wire_name_wf(e.skip(1 + e[0])));
        assert(wire_name_wf(e));
    } else {
        assert(e[0] == name.len() as u8);
        assert(e[0] as int == name.len());
        assert(e.skip(1 + name.len() as int) =~= seq![0u8]);
        assert(wire_name_wf(seq![0u8]));
        assert(wire_name_wf(e));
    }
}

/// A name with well-formed labels has at least one byte.
pub proof fn lemma_labels_wf_nonempty(name: Seq<u8>)
    requires
        labels_wf(name),
    ensures
        name.len() >= 1,
{
    lemma_first_dot_bounds(name);
}

/// Label round-trip: the wire form of a textual name whose labels are each
/// 1 to 63 bytes decodes to exactly itself, consuming all of its bytes.
/// (Re-encoding that wire form is the identity: `spec_encoded_label` of the
/// wire variant returns its bytes unchanged.)
pub proof fn lemma_label_round_trip(name: Seq<u8>)
    requires
        labels_wf(name),
    ensures
        spec_decode_name(spec_encode_name(name), 0) == Some(
            (spec_encode_name(name), spec_encode_name(name).len() as int),
        ),
{
    lemma_labels_wf_nonempty(name);
    lemma_encode_labels_wf(name);
    let e = spec_encode_name(name);
    assert(e.subrange(0, e.len() as int) =~= e);
    lemma_wire_name_self_decode(e, 0, e);
}

/// Decoding at `pos` follows only pointers whose target bytes (up to their
/// zero terminator) form a well-formed label run.
pub open spec fn decode_targets_wf(d: Seq<u8>, pos: int) -> bool
    decreases d.len() - pos,
{
    if pos < 0 || pos >= d.len() {
        true
    } else if d[pos] == 0 {
        true
    } else if d[pos] < 64 {
        if pos + 1 + d[pos] <= d.len() {
            decode_targets_wf(d, pos + 1 + d[pos])
        } else {
            true
        }
    } else if d[pos] >= 192 && pos + 1 < d.len() {
        wire_name_wf(tail_from(d, (d[pos] - 192) * 256 + d[pos + 1]) + seq![0u8])
    } else {
        true
    }
}

/// Pointer-resolution equivalence: when a name decodes and each pointer it
/// follows targets a well-formed label run, the decoded bytes are
/// themselves a well-formed uncompressed name, and decoding them inline
/// (no pointers left) yields the same byte sequence again.
pub proof fn lemma_pointer_resolution(d: Seq<u8>, pos: int)
    requires
        spec_decode_name(d, pos) is Some,
        decode_targets_wf(d, pos),
    ensures
        wire_name_wf(spec_decode_name(d, pos)->Some_0.0),
        spec_decode_name(spec_decode_name(d, pos)->Some_0.0, 0) == Some(
            (spec_decode_name(d, pos)->Some_0.0, spec_decode_name(d, pos)->Some_0.0.len() as int),
        ),
    decreases d.len() - pos,
{
    let n = spec_decode_name(d, pos)->Some_0.0;
    if d[pos] == 0 {
        assert(wire_name_wf(n));
    } else if d[pos] < 64 {
        let b = d[pos] as int;
        lemma_pointer_resolution(d, pos + 1 + b);
        let rest = spec_decode_name(d, pos + 1 + b)->Some_0.0;
        lemma_wire_name_nonempty(rest);
        assert(n[0] == d[pos]);
        assert(n.skip(1 + b) =~= rest);
        assert(wire_name_wf(n));
    } else {
        let off = (d[pos] - 192) * 256 + d[pos + 1];
        assert(n =~= tail_from(d, off) + seq![0u8]);
        assert(wire_name_wf(n));
    }
    assert(n.subrange(0, n.len() as int) =~= n);
    lemma_wire_name_self_decode(n, 0, n);
}

/// A successful decode starts inside the datagram and leaves the cursor
/// past the decoded bytes but within the datagram.
pub proof fn lemma_decode_cursor_bounds(d: Seq<u8>, pos: int)
    requires
        spec_decode_name(d, pos) is Some,
    ensures
        0 <= pos < d.len(),
        pos < spec_decode_name(d, pos)->Some_0.1 <= d.len(),
    decreases d.len() - pos,
{
    if d[pos] == 0 {
    } else if d[pos] < 64 {
        lemma_decode_cursor_bounds(d, pos + 1 + d[pos]);
    } else {
    }
}

/// The bytes scanned up to a zero terminator (or the end) are exactly the
/// subrange they cover.
pub proof fn lemma_tail_from_range(d: Seq<u8>, off: int, j: int)
    requires
        0 <= off <= j <= d.len(),
        forall|i: int| off <= i < j ==> d[i] != 0,
        j < d.len() ==> d[j] == 0,
    ensures
        tail_from(d, off) == d.subrange(off, j),
    decreases j - off,
{
    if off == j {
        assert(d.subrange(off, j) =~= Seq::<u8>::empty());
    } else {
        assert(d[off] != 0);
        lemma_tail_from_range(d, off + 1, j);
        assert(seq![d[off]] + d.subrange(off + 1, j) =~= d.subrange(off, j));
    }
}

/// A value that can emit itself as length-prefixed wire label bytes.
pub trait LabelEncodable {
    /// The wire bytes that `to_encoded_label` emits.
    spec fn spec_encoded_label(&self) -> Seq<u8>;

    /// Emit the name in wire form.
    fn to_encoded_label(self) -> (r: Vec<u8>)
        ensures
            r@ == self.spec_encoded_label(),
    ;
}

impl LabelEncodable for DomainName {
    open spec fn spec_encoded_label(&self) -> Seq<u8> {
        match self {
            DomainName::Text(s) => spec_encode_name(vstd::utf8::encode_utf8(s@)),
            DomainName::Wire(v) => v@,
        }
    }

    fn to_encoded_label(self) -> (r: Vec<u8>) {
        match self {
            DomainName::Text(s) => encode_text_label(s.as_str().as_bytes()),
            DomainName::Wire(v) => v,
        }
    }
}

impl DomainName {
    /// Emit the name in wire form without consuming it.
    pub fn encoded_label(&self) -> (r: Vec<u8>)
        ensures
            r@ == self.spec_encoded_label(),
    {
        match self {
            DomainName::Text(s) => encode_text_label(s.as_str().as_bytes()),
            DomainName::Wire(v) => {
                let v2 = v.clone();
                proof {
                    assert(v2@ =~= v@);
                }
                v2
            },
        }
    }
}

impl Clone for DomainName {
    /// A clone emits the same wire bytes.
    fn clone(&self) -> (r: Self)
        ensures
            r.spec_encoded_label() == self.spec_encoded_label(),
    {
        match self {
            DomainName::Text(s) => DomainName::Text(s.clone()),
            DomainName::Wire(v) => {
                let v2 = v.clone();
                proof {
                    assert(v2@ =~= v@);
                }
                DomainName::Wire(v2)
            },
        }
    }
}

/// Append `src[i..j]` to `out`.
pub(crate) fn push_range(out: &mut Vec<u8>, src: &[u8], i: usize, j: usize)
    requires
        i <= j <= src@.len(),
    ensures
        final(out)@ == old(out)@ + src@.subrange(i as int, j as int),
{
    let mut k: usize = i;
    while k < j
        invariant
            i <= k <= j <= src@.len(),
            out@ == old(out)@ + src@.subrange(i as int, k as int),
        decreases j - k,
    {
        out.push(src[k]);
        proof {
            assert(old(out)@ + src@.subrange(i as int, k + 1) =~= (old(out)@ + src@.subrange(
                i as int,
                k as int,
            )).push(src@[k as int]));
        }
        k += 1;
    }
    proof {
        assert(out@ =~= old(out)@ + src@.subrange(i as int, j as int));
    }
}

/// Encode textual name bytes into length-prefixed wire labels.
pub fn encode_text_label(name: &[u8]) -> (r: Vec<u8>)
    ensures
        r@ == spec_encode_name(name@),
{
    let n = name.len();
    let mut out: Vec<u8> = Vec::new();
    if n == 0 {
        out.push(0);
        proof {
            assert(out@ =~= seq![0u8]);
        }
        return out;
    }
    let mut start: usize = 0;
    proof {
        assert(name@.skip(0) =~= name@);
        assert(out@ + spec_encode_labels(name@) =~= spec_encode_labels(name@));
    }
    loop
        invariant_except_break
            start <= n,
            n == name@.len(),
            n >= 1,
            spec_encode_labels(name@) == out@ + spec_encode_labels(name@.skip(start as int)),
        ensures
            out@ == spec_encode_labels(name@),
        decreases n - start,
    {
        let ghost out_prev = out@;
        let ghost suf = name@.skip(start as int);
        let mut j: usize = start;
        while j < n && name[j] != 46
            invariant
                start <= j <= n,
                n == name@.len(),
                forall|i: int| start <= i < j ==> name@[i] != 46,
            decreases n - j,
        {
            j += 1;
        }
        proof {
            assert forall|i: int| 0 <= i < j - start implies suf[i] != 46 by {
                assert(suf[i] == name@[start + i]);
            }
            if j < n {
                assert(suf[j - start] == name@[j as int]);
            }
            lemma_first_dot_at(suf, j - start);
        }
        if j < n {
            out.push((j - start) as u8);
            push_range(&mut out, name, start, j);
            proof {
                let k = j - start;
                assert(suf.take(k as int) =~= name@.subrange(start as int, j as int));
                assert(suf.skip(k + 1) =~= name@.skip(j + 1));
                assert(out@ =~= out_prev + seq![k as u8] + suf.take(k as int));
                assert(out_prev + (seq![k as u8] + suf.take(k as int) + spec_encode_labels(
                    suf.skip(k + 1),
                )) =~= (out_prev + seq![k as u8] + suf.take(k as int)) + spec_encode_labels(
                    name@.skip(j + 1),
                ));
            }
            start = j + 1;
        } else {
            out.push((n - start) as u8);
            push_range(&mut out, name, start, n);
            out.push(0);
            proof {
                let k = n - start;
                assert(suf =~= name@.subrange(start as int, n as int));
                assert(suf.len() == k);
                assert(spec_encode_labels(suf) == seq![k as u8] + suf + seq![0u8]);
                assert(out@ =~= out_prev + (seq![k as u8] + suf + seq![0u8]));
            }
            break ;
        }
    }
    out
}

} // verus!
