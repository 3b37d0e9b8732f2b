//! Unsigned LEB128 integers: seven bits per byte, least significant group
//! first, the high bit set on every byte but the last.

use vstd::prelude::*;

verus! {

/// The minimal base-128 encoding of `n`.
pub open spec fn varint_of(n: nat) -> Seq<u8>
    decreases n,
{
    if n < 128 {
        seq![n as u8]
    } else {
        seq![(n % 128 + 128) as u8] + varint_of(n / 128)
    }
}

/// `p` is a prefix of `s`.
pub open spec fn is_prefix(p: Seq<u8>, s: Seq<u8>) -> bool {
    p.len() <= s.len() && s.subrange(0, p.len() as int) == p
}

/// `128^k`.
pub open spec fn pow128(k: nat) -> nat
    decreases k,
{
    if k == 0 {
        1
    } else {
        128 * pow128((k - 1) as nat)
    }
}

/// A value below `128^k` takes at most `k` bytes.
pub proof fn lemma_varint_len(n: nat, k: nat)
    requires
        n < pow128(k),
        k >= 1,
    ensures
        varint_of(n).len() <= k,
        varint_of(n).len() >= 1,
    decreases n,
{
    if n >= 128 {
        if k == 1 {
            assert(pow128(0) == 1);
        } else {
            assert(n / 128 < pow128((k - 1) as nat)) by (nonlinear_arith)
                requires
                    n < 128 * pow128((k - 1) as nat),
            ;
            lemma_varint_len(n / 128, (k - 1) as nat);
        }
    }
}

/// A 64-bit value takes at most ten bytes.
pub proof fn lemma_varint_len_u64(n: u64)
    ensures
        1 <= varint_of(n as nat).len() <= 10,
{
    reveal_with_fuel(pow128, 11);
    assert(pow128(10) == 1180591620717411303424nat);
    lemma_varint_len(n as nat, 10);
}

/// No encoding is a proper prefix of another: one byte string starts with at
/// most one encoded value.
pub proof fn lemma_varint_unique(n: nat, m: nat, s: Seq<u8>)
    requires
        is_prefix(varint_of(n), s),
        is_prefix(varint_of(m), s),
    ensures
        n == m,
    decreases n,
{
    assert(varint_of(n)[0] == s[0]);
    assert(varint_of(m)[0] == s[0]);
    if n >= 128 && m >= 128 {
        let t = s.subrange(1, s.len() as int);
        assert(varint_of(n / 128) =~= varint_of(n).subrange(1, varint_of(n).len() as int));
        assert(varint_of(m / 128) =~= varint_of(m).subrange(1, varint_of(m).len() as int));
        assert(t.subrange(0, varint_of(n / 128).len() as int) =~= varint_of(n / 128));
        assert(t.subrange(0, varint_of(m / 128).len() as int) =~= varint_of(m / 128));
        lemma_varint_unique(n / 128, m / 128, t);
    }
}

/// Appends the encoding of `n` to `out`.
pub fn encode_varint(n: u64, out: &mut Vec<u8>)
    ensures
        final(out)@ == old(out)@ + varint_of(n as nat),
{
    let mut v: u64 = n;
    while v >= 128
        invariant
            out@ + varint_of(v as nat) == old(out)@ + varint_of(n as nat),
        decreases v,
    {
        let b: u8 = (v % 128 + 128) as u8;
        let ghost before = out@;
        out.push(b);
        assert(out@ + varint_of((v / 128) as nat) =~= before + varint_of(v as nat));
        v = v / 128;
    }
    let ghost before = out@;
    out.push(v as u8);
    assert(out@ =~= before + varint_of(v as nat));
}

/// Reads one value at `pos`, taking at most `limit` bytes. Recursion depth is
/// bounded by `limit`, so a long run of continuation bytes costs little.
fn decode_varint_limited(buf: &[u8], pos: usize, limit: usize) -> (r: Option<(u64, usize)>)
    requires
        pos <= buf@.len(),
    ensures
        match r {
            Some((v, end)) => pos < end <= buf@.len() && end - pos <= limit
                && buf@.subrange(pos as int, end as int) == varint_of(v as nat),
            None => true,
        },
        forall|n: u64|
            #![trigger varint_of(n as nat)]
            varint_of(n as nat).len() <= limit && is_prefix(
                varint_of(n as nat),
                buf@.subrange(pos as int, buf@.len() as int),
            ) ==> r == Some((n, (pos + varint_of(n as nat).len()) as usize)),
    decreases limit,
{
    if limit == 0 || pos >= buf.len() {
        return None;
    }
    let b: u8 = buf[pos];
    if b < 128 {
        proof {
            assert(buf@.subrange(pos as int, pos + 1) =~= varint_of(b as nat));
            assert forall|n: u64|
                #![trigger varint_of(n as nat)]
                varint_of(n as nat).len() <= limit && is_prefix(
                    varint_of(n as nat),
                    buf@.subrange(pos as int, buf@.len() as int),
                ) implies Some((b as u64, (pos + 1) as usize)) == Some(
                (n, (pos + varint_of(n as nat).len()) as usize),
            ) by {
                assert(varint_of(n as nat)[0] == buf@[pos as int]);
            }
        }
        return Some((b as u64, pos + 1));
    }
    let low: u64 = (b - 128) as u64;
    match decode_varint_limited(buf, pos + 1, limit - 1) {
        None => {
            proof {
                assert forall|n: u64|
                    #![trigger varint_of(n as nat)]
                    varint_of(n as nat).len() <= limit && is_prefix(
                        varint_of(n as nat),
                        buf@.subrange(pos as int, buf@.len() as int),
                    ) implies false by {
                    assert(varint_of(n as nat)[0] == buf@[pos as int]);
                    let q: u64 = n / 128;
                    assert(varint_of(q as nat) =~= varint_of(n as nat).subrange(
                        1,
                        varint_of(n as nat).len() as int,
                    ));
                    assert(buf@.subrange(pos + 1, buf@.len() as int).subrange(
                        0,
                        varint_of(q as nat).len() as int,
                    ) =~= varint_of(q as nat));
                }
            }
            None
        },
        Some((v, end)) => {
            if v == 0 || v > (u64::MAX - low) / 128 {
                proof {
                    assert forall|n: u64|
                        #![trigger varint_of(n as nat)]
                        varint_of(n as nat).len() <= limit && is_prefix(
                            varint_of(n as nat),
                            buf@.subrange(pos as int, buf@.len() as int),
                        ) implies false by {
                        assert(varint_of(n as nat)[0] == buf@[pos as int]);
                        let q: u64 = n / 128;
                        assert(varint_of(q as nat) =~= varint_of(n as nat).subrange(
                            1,
                            varint_of(n as nat).len() as int,
                        ));
                        assert(buf@.subrange(pos + 1, buf@.len() as int).subrange(
                            0,
                            varint_of(q as nat).len() as int,
                        ) =~= varint_of(q as nat));
                        assert(v == q);
                        assert(n % 128 == low);
                        assert(q <= (u64::MAX - low) / 128) by (nonlinear_arith)
                            requires
                                n <= u64::MAX,
                                q == n / 128,
                                low == n % 128,
                        ;
                    }
                }
                return None;
            }
            assert(v * 128 + low <= u64::MAX) by (nonlinear_arith)
                requires
                    v <= (u64::MAX - low) / 128,
                    low < 128,
            ;
            let value: u64 = v * 128 + low;
            proof {
                assert(value % 128 == low && value / 128 == v) by (nonlinear_arith)
                    requires
                        value == v * 128 + low,
                        low < 128,
                ;
                assert(buf@.subrange(pos as int, end as int) =~= seq![b] + buf@.subrange(
                    pos + 1,
                    end as int,
                ));
                assert forall|n: u64|
                    #![trigger varint_of(n as nat)]
                    varint_of(n as nat).len() <= limit && is_prefix(
                        varint_of(n as nat),
                        buf@.subrange(pos as int, buf@.len() as int),
                    ) implies Some((value, end)) == Some(
                    (n, (pos + varint_of(n as nat).len()) as usize),
                ) by {
                    assert(varint_of(n as nat)[0] == buf@[pos as int]);
                    let q: u64 = n / 128;
                    assert(varint_of(q as nat) =~= varint_of(n as nat).subrange(
                        1,
                        varint_of(n as nat).len() as int,
                    ));
                    assert(buf@.subrange(pos + 1, buf@.len() as int).subrange(
                        0,
                        varint_of(q as nat).len() as int,
                    ) =~= varint_of(q as nat));
                    assert(v == q);
                    assert(n % 128 == low);
                    assert(n == q * 128 + low) by (nonlinear_arith)
                        requires
                            q == n / 128,
                            low == n % 128,
                    ;
                }
            }
            Some((value, end))
        },
    }
}

/// Reads one value at `pos` of `buf`: the value and the position just after
/// it, or `None` where no 64-bit value is encoded there.
pub fn decode_varint(buf: &[u8], pos: usize) -> (r: Option<(u64, usize)>)
    requires
        pos <= buf@.len(),
    ensures
        match r {
            Some((v, end)) => pos < end <= buf@.len() && buf@.subrange(pos as int, end as int)
                == varint_of(v as nat),
            None => true,
        },
        forall|n: u64|
            #![trigger varint_of(n as nat)]
            is_prefix(varint_of(n as nat), buf@.subrange(pos as int, buf@.len() as int)) ==> r
                == Some((n, (pos + varint_of(n as nat).len()) as usize)),
{
    let r = decode_varint_limited(buf, pos, 10);
    proof {
        assert forall|n: u64|
            #![trigger varint_of(n as nat)]
            is_prefix(
                varint_of(n as nat),
                buf@.subrange(pos as int, buf@.len() as int),
            ) implies r == Some((n, (pos + varint_of(n as nat).len()) as usize)) by {
            lemma_varint_len_u64(n);
        }
    }
    r
}

} // verus!
