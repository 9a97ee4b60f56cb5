//! Base64.

use vstd::prelude::*;

verus! {

broadcast use vstd::seq::group_seq_axioms;

/// The digit for a number below 64.
pub open spec fn base64_digit(v: int) -> char {
    if v < 26 {
        ('A' as int + v) as char
    } else if v < 52 {
        ('a' as int + (v - 26)) as char
    } else if v < 62 {
        ('0' as int + (v - 52)) as char
    } else if v == 62 {
        '+'
    } else {
        '/'
    }
}

/// The four digits for three bytes, or for the one or two that are left at the end, with
/// padding.
pub open spec fn base64_group(data: Seq<u8>) -> Seq<char> {
    let a = data[0] as int;
    let b = if data.len() > 1 {
        data[1] as int
    } else {
        0
    };
    let c = if data.len() > 2 {
        data[2] as int
    } else {
        0
    };
    let n = a * 65536 + b * 256 + c;
    seq![
        base64_digit(n / 262144),
        base64_digit(n / 4096 % 64),
        if data.len() > 1 {
            base64_digit(n / 64 % 64)
        } else {
            '='
        },
        if data.len() > 2 {
            base64_digit(n % 64)
        } else {
            '='
        },
    ]
}

/// Bytes in base64.
pub open spec fn base64(data: Seq<u8>) -> Seq<char>
    decreases data.len(),
{
    if data.len() == 0 {
        Seq::empty()
    } else if data.len() <= 3 {
        base64_group(data)
    } else {
        base64_group(data.take(3)) + base64(data.skip(3))
    }
}

fn digit(v: u32) -> (r: char)
    requires
        v < 64,
    ensures
        r == base64_digit(v as int),
{
    let code: u8 = if v < 26 {
        'A' as u8 + v as u8
    } else if v < 52 {
        'a' as u8 + (v as u8 - 26)
    } else if v < 62 {
        '0' as u8 + (v as u8 - 52)
    } else if v == 62 {
        '+' as u8
    } else {
        '/' as u8
    };
    code as char
}

/// Encodes bytes in base64.
pub fn base64_encode(data: &[u8]) -> (r: String)
    ensures
        r@ == base64(data@),
{
    let mut result = String::new();
    let n = data.len();
    let mut i: usize = 0;
    assert(data@.skip(0) =~= data@);
    while i < n
        invariant
            i <= n == data@.len(),
            base64(data@) == result@ + base64(data@.skip(i as int)),
        decreases n - i,
    {
        let left = n - i;
        let a = data[i] as u32;
        let b = if left > 1 {
            data[i + 1] as u32
        } else {
            0
        };
        let c = if left > 2 {
            data[i + 2] as u32
        } else {
            0
        };
        let v: u32 = a * 65536 + b * 256 + c;
        let ghost before = result@;
        result.push(digit(v / 262144));
        result.push(digit(v / 4096 % 64));
        if left > 1 {
            result.push(digit(v / 64 % 64));
        } else {
            result.push('=');
        }
        if left > 2 {
            result.push(digit(v % 64));
        } else {
            result.push('=');
        }
        let ghost rest = data@.skip(i as int);
        if left <= 3 {
            proof {
                assert(result@ =~= before + base64_group(rest));
            }
            i = n;
            proof {
                assert(base64(data@.skip(i as int)) =~= Seq::empty());
            }
        } else {
            proof {
                assert(result@ =~= before + base64_group(rest.take(3)));
                assert(rest.skip(3) =~= data@.skip(i + 3));
                assert(before + (base64_group(rest.take(3)) + base64(rest.skip(3))) =~= result@
                    + base64(rest.skip(3)));
            }
            i = i + 3;
        }
    }
    assert(result@ + base64(data@.skip(i as int)) =~= result@);
    result
}

/// The number that a digit stands for.
pub open spec fn base64_value(c: char) -> int {
    if 'A' <= c <= 'Z' {
        c as int - 'A' as int
    } else if 'a' <= c <= 'z' {
        c as int - 'a' as int + 26
    } else if '0' <= c <= '9' {
        c as int - '0' as int + 52
    } else if c == '+' {
        62
    } else {
        63
    }
}

/// The bytes that four digits stand for.
pub open spec fn group_bytes(digits: Seq<char>) -> Seq<u8> {
    let n = base64_value(digits[0]) * 262144 + base64_value(digits[1]) * 4096 + base64_value(
        digits[2],
    ) * 64 + base64_value(digits[3]);
    if digits[2] == '=' {
        seq![(base64_value(digits[0]) * 4 + base64_value(digits[1]) / 16) as u8]
    } else if digits[3] == '=' {
        let m = base64_value(digits[0]) * 4096 + base64_value(digits[1]) * 64 + base64_value(
            digits[2],
        );
        seq![(m / 1024) as u8, (m / 4 % 256) as u8]
    } else {
        seq![(n / 65536) as u8, (n / 256 % 256) as u8, (n % 256) as u8]
    }
}

/// The bytes that a text in base64 stands for.
pub open spec fn base64_bytes(text: Seq<char>) -> Seq<u8>
    decreases text.len(),
{
    if text.len() < 4 {
        Seq::empty()
    } else {
        group_bytes(text.take(4)) + base64_bytes(text.skip(4))
    }
}

proof fn lemma_digit(v: int)
    requires
        0 <= v < 64,
    ensures
        base64_value(base64_digit(v)) == v,
        base64_digit(v) != '=',
{
}

/// How a number of three bytes is cut into four digits, where the bytes are cut at the
/// digits' borders.
proof fn lemma_digits(a: int, a0: int, b: int, b0: int, c: int, c0: int)
    requires
        0 <= a < 64,
        0 <= a0 < 4,
        0 <= b < 16,
        0 <= b0 < 16,
        0 <= c < 4,
        0 <= c0 < 64,
    ensures
        ({
            let n = (4 * a + a0) * 65536 + (16 * b + b0) * 256 + (64 * c + c0);
            &&& n / 262144 == a
            &&& n / 4096 % 64 == 16 * a0 + b
            &&& n / 64 % 64 == 4 * b0 + c
            &&& n % 64 == c0
            &&& n / 65536 == 4 * a + a0
            &&& n / 256 % 256 == 16 * b + b0
            &&& n % 256 == 64 * c + c0
        }),
{
    let n = (4 * a + a0) * 65536 + (16 * b + b0) * 256 + (64 * c + c0);
    assert(n == a * 262144 + (16 * a0 + b) * 4096 + (4 * b0 + c) * 64 + c0);
    assert(n / 262144 == a);
    assert(n / 4096 == a * 64 + (16 * a0 + b));
    assert(n / 64 == (a * 64 + (16 * a0 + b)) * 64 + (4 * b0 + c));
    assert(n / 65536 == 4 * a + a0);
    assert(n / 256 == (4 * a + a0) * 256 + (16 * b + b0));
}

proof fn lemma_group(data: Seq<u8>)
    requires
        0 < data.len() <= 3,
    ensures
        base64_group(data).len() == 4,
        group_bytes(base64_group(data)) == data,
{
    let a = data[0] as int;
    let b = if data.len() > 1 {
        data[1] as int
    } else {
        0
    };
    let c = if data.len() > 2 {
        data[2] as int
    } else {
        0
    };
    lemma_digits(a / 4, a % 4, b / 16, b % 16, c / 64, c % 64);
    let d0 = a / 4;
    let d1 = 16 * (a % 4) + b / 16;
    let d2 = 4 * (b % 16) + c / 64;
    let d3 = c % 64;
    lemma_digit(d0);
    lemma_digit(d1);
    lemma_digit(d2);
    lemma_digit(d3);
    let group = base64_group(data);
    assert(group[0] == base64_digit(d0));
    assert(group[1] == base64_digit(d1));
    if data.len() == 1 {
        assert(d0 * 4 + d1 / 16 == a);
    } else if data.len() == 2 {
        assert(group[2] == base64_digit(d2));
        assert(d0 * 4096 + d1 * 64 + d2 == a * 1024 + b * 4);
    } else {
        assert(group[2] == base64_digit(d2));
        assert(group[3] == base64_digit(d3));
        assert(d0 * 262144 + d1 * 4096 + d2 * 64 + d3 == a * 65536 + b * 256 + c);
    }
    assert(group_bytes(group) =~= data);
}

/// Encoding loses nothing: the bytes can be read back.
pub proof fn encoded_bytes_read_back(data: Seq<u8>)
    ensures
        base64_bytes(base64(data)) == data,
    decreases data.len(),
{
    if data.len() == 0 {
    } else if data.len() <= 3 {
        lemma_group(data);
        let text = base64(data);
        assert(text.take(4) =~= text);
        assert(base64_bytes(text.skip(4)) =~= Seq::empty());
        assert(base64_bytes(text) =~= data);
    } else {
        lemma_group(data.take(3));
        encoded_bytes_read_back(data.skip(3));
        let text = base64(data);
        assert(text.take(4) =~= base64_group(data.take(3)));
        assert(text.skip(4) =~= base64(data.skip(3)));
        assert(data.take(3) + data.skip(3) =~= data);
    }
}

/// Four digits come out for every three bytes that were begun.
pub proof fn encoded_length(data: Seq<u8>)
    ensures
        base64(data).len() == (data.len() + 2) / 3 * 4,
    decreases data.len(),
{
    if data.len() > 3 {
        encoded_length(data.skip(3));
    }
}

/// Bytes are encoded three by three: where whole threes stand in front, their digits do.
pub proof fn threes_are_encoded_in_turn(front: Seq<u8>, back: Seq<u8>)
    requires
        front.len() % 3 == 0,
    ensures
        base64(front + back) == base64(front) + base64(back),
    decreases front.len(),
{
    let data = front + back;
    if front.len() == 0 {
        assert(data =~= back);
        assert(base64(front) + base64(back) =~= base64(back));
    } else {
        let rest = front.skip(3);
        threes_are_encoded_in_turn(rest, back);
        assert(data.take(3) =~= front.take(3));
        assert(data.skip(3) =~= rest + back);
        if front.len() == 3 {
            assert(front.take(3) =~= front);
            assert(rest =~= Seq::empty());
            if back.len() == 0 {
                assert(data =~= front);
                assert(base64(front) + base64(back) =~= base64(front));
            }
        }
        assert(base64(data) =~= base64(front) + base64(back));
    }
}

/// One or two bytes at the end are encoded as if zeros stood behind them, with padding in
/// place of the digits that say nothing of them.
pub proof fn the_end_is_filled_with_zeros(a: u8, b: u8)
    ensures
        base64(seq![a]) == base64(seq![a, 0, 0]).take(2) + seq!['=', '='],
        base64(seq![a, b]) == base64(seq![a, b, 0]).take(3) + seq!['='],
{
    assert(base64(seq![a]) =~= base64(seq![a, 0, 0]).take(2) + seq!['=', '=']);
    assert(base64(seq![a, b]) =~= base64(seq![a, b, 0]).take(3) + seq!['=']);
}

} // verus!
