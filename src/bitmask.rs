//! Bit-significant port lists: one bit per port, most significant bit first.
use vstd::prelude::*;

verus! {

/// Whether bit `k` (0 = most significant) of byte `b` is set.
pub open spec fn bit_set(b: u8, k: int) -> bool {
    (b >> ((7 - k) as u8)) & 1u8 == 1u8
}

/// Whether the port list `bytes` holds the 1-based port `n`.
pub open spec fn has_port(bytes: Seq<u8>, n: int) -> bool {
    1 <= n <= 8 * bytes.len() && bit_set(bytes[(n - 1) / 8], (n - 1) % 8)
}

/// The ports among `1..=m` that `bytes` holds, in ascending order.
pub open spec fn ports_upto(bytes: Seq<u8>, m: nat) -> Seq<usize>
    decreases m,
{
    if m == 0 {
        Seq::empty()
    } else if has_port(bytes, m as int) {
        ports_upto(bytes, (m - 1) as nat).push(m as usize)
    } else {
        ports_upto(bytes, (m - 1) as nat)
    }
}

/// Every port that `bytes` holds, in ascending order.
pub open spec fn decoded_ports(bytes: Seq<u8>) -> Seq<usize> {
    ports_upto(bytes, (8 * bytes.len()) as nat)
}

/// The ports among `1..=m` are listed ascending, each once, and are exactly
/// the ports in that span that `bytes` holds.
pub proof fn lemma_ports_upto(bytes: Seq<u8>, m: nat)
    requires
        m < usize::MAX,
    ensures
        forall|i: int, j: int|
            0 <= i < j < ports_upto(bytes, m).len() ==> ports_upto(bytes, m)[i] < ports_upto(bytes, m)[j],
        forall|i: int| 0 <= i < ports_upto(bytes, m).len() ==> ports_upto(bytes, m)[i] <= m,
        forall|n: usize| #[trigger]
            ports_upto(bytes, m).contains(n) <==> (1 <= n <= m && has_port(bytes, n as int)),
    decreases m,
{
    if m > 0 {
        let prev = ports_upto(bytes, (m - 1) as nat);
        lemma_ports_upto(bytes, (m - 1) as nat);
        let cur = ports_upto(bytes, m);
        assert forall|n: usize| #[trigger] cur.contains(n) <==> (1 <= n <= m && has_port(bytes, n as int)) by {
            if has_port(bytes, m as int) {
                assert(cur == prev.push(m as usize));
                if cur.contains(n) && n != m {
                    let i = choose|i: int| 0 <= i < cur.len() && cur[i] == n;
                    assert(prev[i] == n);
                }
                if prev.contains(n) {
                    let i = choose|i: int| 0 <= i < prev.len() && prev[i] == n;
                    assert(cur[i] == n);
                }
                if n == m {
                    assert(cur[cur.len() - 1] == n);
                }
            }
        }
    }
}

/// The decoded ports are listed ascending, each once, and are exactly the
/// ports that `bytes` holds.
pub proof fn lemma_decoded_ports(bytes: Seq<u8>)
    requires
        8 * bytes.len() < usize::MAX,
    ensures
        forall|i: int, j: int|
            0 <= i < j < decoded_ports(bytes).len() ==> decoded_ports(bytes)[i] < decoded_ports(bytes)[j],
        forall|n: usize| #[trigger] decoded_ports(bytes).contains(n) <==> has_port(bytes, n as int),
{
    lemma_ports_upto(bytes, (8 * bytes.len()) as nat);
}

/// Decodes a bit-significant port list into its 1-based port numbers,
/// in ascending order. Every byte presented is decoded.
pub fn decode_port_list(ports: &[u8]) -> (r: Vec<usize>)
    requires
        8 * ports@.len() < usize::MAX,
    ensures
        r@ == decoded_ports(ports@),
        forall|i: int, j: int| 0 <= i < j < r@.len() ==> r@[i] < r@[j],
        forall|n: usize| #[trigger] r@.contains(n) <==> has_port(ports@, n as int),
{
    let mut port_list: Vec<usize> = Vec::new();
    let mut byte_index: usize = 0;
    while byte_index < ports.len()
        invariant
            byte_index <= ports@.len(),
            8 * ports@.len() < usize::MAX,
            port_list@ == ports_upto(ports@, (8 * byte_index) as nat),
        decreases ports@.len() - byte_index,
    {
        let byte = ports[byte_index];
        let mut bit_index: u8 = 0;
        while bit_index < 8
            invariant
                byte_index < ports@.len(),
                bit_index <= 8,
                byte == ports@[byte_index as int],
                8 * ports@.len() < usize::MAX,
                port_list@ == ports_upto(ports@, (8 * byte_index + bit_index) as nat),
            decreases 8 - bit_index,
        {
            let port_number: usize = byte_index * 8 + bit_index as usize + 1;
            assert((port_number - 1) / 8 == byte_index as int && (port_number - 1) % 8
                == bit_index as int) by (nonlinear_arith)
                requires
                    port_number == byte_index * 8 + bit_index + 1,
                    bit_index < 8,
            ;
            if (byte >> (7 - bit_index)) & 1u8 == 1u8 {
                port_list.push(port_number);
            }
            bit_index = bit_index + 1;
        }
        byte_index = byte_index + 1;
    }
    proof {
        assert(port_list@ == decoded_ports(ports@));
        lemma_decoded_ports(ports@);
    }
    port_list
}

/// Whether the port list `ports_data` holds port `port_num`.
pub fn port_in_list(port_num: u32, ports_data: &[u8]) -> (r: bool)
    ensures
        r == has_port(ports_data@, port_num as int),
{
    if port_num == 0 {
        return false;
    }
    let index: usize = ((port_num - 1) / 8) as usize;
    if index >= ports_data.len() {
        return false;
    }
    let bit: u8 = ((port_num - 1) % 8) as u8;
    (ports_data[index] >> (7 - bit)) & 1u8 == 1u8
}

/// Whether `bytes` is a port list that holds port `n` and no other port.
pub open spec fn only_port(bytes: Seq<u8>, n: int) -> bool {
    &&& 1 <= n
    &&& (n - 1) / 8 < bytes.len()
    &&& forall|i: int|
        0 <= i < bytes.len() ==> #[trigger] bytes[i] == if i == (n - 1) / 8 {
            0x80u8 >> (((n - 1) % 8) as u8)
        } else {
            0u8
        }
}

proof fn lemma_single_bit(x: u8, y: u8)
    requires
        x < 8,
        y < 8,
    ensures
        ((0x80u8 >> x) >> ((7 - y) as u8)) & 1u8 == 1u8 <==> x == y,
{
    assert(((0x80u8 >> x) >> ((7 - y) as u8)) & 1u8 == 1u8 <==> x == y) by (bit_vector)
        requires
            x < 8,
            y < 8,
    ;
}

proof fn lemma_zero_bit(y: u8)
    requires
        y < 8,
    ensures
        (0u8 >> ((7 - y) as u8)) & 1u8 != 1u8,
{
    assert((0u8 >> ((7 - y) as u8)) & 1u8 != 1u8) by (bit_vector)
        requires
            y < 8,
    ;
}

proof fn lemma_only_port_bits(bytes: Seq<u8>, n: int, m: int)
    requires
        only_port(bytes, n),
        1 <= m <= 8 * bytes.len(),
    ensures
        has_port(bytes, m) <==> m == n,
{
    let j = (n - 1) % 8;
    let k = (m - 1) % 8;
    let b = bytes[(m - 1) / 8];
    if (m - 1) / 8 == (n - 1) / 8 {
        assert(b == 0x80u8 >> (j as u8));
        assert(m - 1 == 8 * ((m - 1) / 8) + k && n - 1 == 8 * ((n - 1) / 8) + j);
        lemma_single_bit(j as u8, k as u8);
    } else {
        assert(b == 0u8);
        lemma_zero_bit(k as u8);
        assert(m != n);
    }
}

proof fn lemma_only_port_upto(bytes: Seq<u8>, n: int, m: nat)
    requires
        only_port(bytes, n),
        m <= 8 * bytes.len(),
    ensures
        ports_upto(bytes, m) == if m < n {
            Seq::<usize>::empty()
        } else {
            seq![n as usize]
        },
    decreases m,
{
    if m > 0 {
        lemma_only_port_upto(bytes, n, (m - 1) as nat);
        lemma_only_port_bits(bytes, n, m as int);
    }
}

/// A port list holding port `n` alone decodes to exactly `n`.
pub proof fn lemma_single_port_decodes(bytes: Seq<u8>, n: int)
    requires
        only_port(bytes, n),
    ensures
        decoded_ports(bytes) == seq![n as usize],
{
    assert(n <= 8 * bytes.len());
    lemma_only_port_upto(bytes, n, (8 * bytes.len()) as nat);
}

} // verus!
