//! Hardware (MAC) addresses: the 6-octet value, its textual form
//! (colon- or hyphen-separated hex, case-insensitive), the canonical
//! upper-case rendering, and the integer keys used to index directories
//! and registries.

use vstd::prelude::*;

verus! {

use vstd::string::StringExecFns;

broadcast use vstd::string::group_string_axioms;

/// A 6-octet link-layer hardware address. Equality is exact byte equality.
#[derive(Clone, Copy, PartialEq, Eq, Hash, Debug)]
pub struct HardwareAddress {
    pub octets: [u8; 6],
}

impl View for HardwareAddress {
    type V = Seq<u8>;

    open spec fn view(&self) -> Seq<u8> {
        self.octets@
    }
}

/// A group separator accepted in textual addresses.
pub open spec fn is_sep(c: char) -> bool {
    c == ':' || c == '-'
}

pub open spec fn is_hex_digit(c: char) -> bool {
    ('0' <= c && c <= '9') || ('a' <= c && c <= 'f') || ('A' <= c && c <= 'F')
}

/// Numeric value of a hex digit; case-insensitive by construction.
pub open spec fn hex_val(c: char) -> u8
    recommends
        is_hex_digit(c),
{
    if '0' <= c && c <= '9' {
        (c as u32 - 48) as u8
    } else if 'a' <= c && c <= 'f' {
        (c as u32 - 87) as u8
    } else {
        (c as u32 - 55) as u8
    }
}

/// Text made of `n` two-digit hex groups joined by single separators,
/// e.g. `AA:BB:CC` for `n == 3`.
pub open spec fn valid_hex_groups(s: Seq<char>, n: int) -> bool {
    &&& s.len() == 3 * n - 1
    &&& forall|i: int|
        0 <= i < s.len() ==> (if i % 3 == 2 {
            is_sep(#[trigger] s[i])
        } else {
            is_hex_digit(s[i])
        })
}

/// The octets denoted by a `valid_hex_groups(s, n)` text.
pub open spec fn group_octets(s: Seq<char>, n: int) -> Seq<u8> {
    Seq::new(n as nat, |k: int| (hex_val(s[3 * k]) * 16 + hex_val(s[3 * k + 1])) as u8)
}

// Byte-level counterparts: executable parsing walks the UTF-8 bytes of an
// ASCII string, and these mirror the character-level definitions there.
pub open spec fn is_hex_digit_byte(b: u8) -> bool {
    (48 <= b && b <= 57) || (97 <= b && b <= 102) || (65 <= b && b <= 70)
}

pub open spec fn hex_val_byte(b: u8) -> u8 {
    if 48 <= b && b <= 57 {
        (b - 48) as u8
    } else if 97 <= b && b <= 102 {
        (b - 87) as u8
    } else {
        (b - 55) as u8
    }
}

proof fn lemma_hex_char_byte(c: char)
    requires
        c <= '\u{7f}',
    ensures
        is_hex_digit(c) == is_hex_digit_byte(c as u8),
        is_hex_digit(c) ==> hex_val(c) == hex_val_byte(c as u8),
        is_sep(c) == (c as u8 == 58 || c as u8 == 45),
{
}

fn hex_nibble_of_byte(b: u8) -> (r: Option<u8>)
    ensures
        match r {
            Some(v) => is_hex_digit_byte(b) && v == hex_val_byte(b),
            None => !is_hex_digit_byte(b),
        },
{
    if 48 <= b && b <= 57 {
        Some(b - 48)
    } else if 97 <= b && b <= 102 {
        Some(b - 87)
    } else if 65 <= b && b <= 70 {
        Some(b - 55)
    } else {
        None
    }
}

/// Parses `n` two-digit hex groups joined by `:` or `-`; case-insensitive.
/// Returns the octets exactly when the text is well-formed.
pub fn parse_hex_groups(s: &str, n: usize) -> (r: Option<Vec<u8>>)
    requires
        1 <= n <= 1000,
    ensures
        match r {
            Some(v) => valid_hex_groups(s@, n as int) && v@ == group_octets(s@, n as int),
            None => !valid_hex_groups(s@, n as int),
        },
{
    proof {
        broadcast use vstd::string::group_string_axioms;
    }
    if !s.is_ascii() {
        proof {
            let sv = s@;
            if valid_hex_groups(sv, n as int) {
                assert(forall|i: int|
                    0 <= i < sv.len() ==> '\0' <= #[trigger] sv[i] <= '\u{7f}') by {
                    assert forall|i: int| 0 <= i < sv.len() implies '\0' <= #[trigger] sv[i]
                        <= '\u{7f}' by {
                        if i % 3 == 2 {
                            assert(is_sep(sv[i]));
                        } else {
                            assert(is_hex_digit(sv[i]));
                        }
                    }
                }
                assert(vstd::utf8::is_ascii_chars(sv));
            }
        }
        return None;
    }
    let b = s.as_bytes();
    let want = 3 * n - 1;
    if b.len() != want {
        return None;
    }
    let ghost sv = s@;
    proof {
        assert(vstd::utf8::is_ascii_chars(sv));
        assert(b@.len() == sv.len());
        assert(forall|i: int| 0 <= i < sv.len() ==> #[trigger] b@[i] == sv[i] as u8);
    }
    let mut out: Vec<u8> = Vec::new();
    let mut k: usize = 0;
    while k < n
        invariant
            1 <= n <= 1000,
            k <= n,
            sv == s@,
            b@.len() == 3 * n - 1,
            sv.len() == b@.len(),
            vstd::utf8::is_ascii_chars(sv),
            forall|i: int| 0 <= i < sv.len() ==> #[trigger] b@[i] == sv[i] as u8,
            out@.len() == k,
            forall|j: int|
                0 <= j < 3 * k - 1 ==> (if j % 3 == 2 {
                    is_sep(#[trigger] sv[j])
                } else {
                    is_hex_digit(sv[j])
                }),
            forall|j: int|
                0 <= j < k ==> #[trigger] out@[j] == (hex_val(sv[3 * j]) * 16 + hex_val(
                    sv[3 * j + 1],
                )) as u8,
        decreases n - k,
    {
        if k > 0 {
            let sep = b[3 * k - 1];
            proof {
                lemma_hex_char_byte(sv[3 * k - 1]);
            }
            if !(sep == 58 || sep == 45) {
                proof {
                    let j: int = 3 * k - 1;
                    assert(j % 3 == 2);
                    assert('\0' <= sv[j] <= '\u{7f}');
                    assert(!is_sep(sv[j]));
                    assert(!valid_hex_groups(sv, n as int));
                }
                return None;
            }
        }
        let hi_b = b[3 * k];
        let lo_b = b[3 * k + 1];
        proof {
            lemma_hex_char_byte(sv[3 * k]);
            lemma_hex_char_byte(sv[3 * k + 1]);
            assert((3 * k) % 3 == 0);
            assert((3 * k + 1) % 3 == 1);
        }
        let hi = match hex_nibble_of_byte(hi_b) {
            Some(v) => v,
            None => {
                proof {
                    let j: int = 3 * k;
                    assert('\0' <= sv[j] <= '\u{7f}');
                    assert(!is_hex_digit(sv[j]));
                    assert(!valid_hex_groups(sv, n as int));
                }
                return None;
            },
        };
        let lo = match hex_nibble_of_byte(lo_b) {
            Some(v) => v,
            None => {
                proof {
                    let j: int = 3 * k + 1;
                    assert('\0' <= sv[j] <= '\u{7f}');
                    assert(!is_hex_digit(sv[j]));
                    assert(!valid_hex_groups(sv, n as int));
                }
                return None;
            },
        };
        out.push(hi * 16 + lo);
        k = k + 1;
    }
    proof {
        assert(valid_hex_groups(sv, n as int)) by {
            assert forall|i: int| 0 <= i < sv.len() implies (if i % 3 == 2 {
                is_sep(#[trigger] sv[i])
            } else {
                is_hex_digit(sv[i])
            }) by {
                assert(i < 3 * n - 1);
            }
        }
        assert(out@ =~= group_octets(sv, n as int));
    }
    Some(out)
}

impl HardwareAddress {
    pub fn new(octets: [u8; 6]) -> (r: HardwareAddress)
        ensures
            r@ == octets@,
    {
        HardwareAddress { octets }
    }

    /// Parses the textual form, six hex groups such as `AA:BB:CC:DD:EE:FF`
    /// or `aa-bb-cc-dd-ee-ff`; comparisons are case-insensitive.
    pub fn from_text(s: &str) -> (r: Option<HardwareAddress>)
        ensures
            match r {
                Some(a) => valid_hex_groups(s@, 6) && a@ == group_octets(s@, 6),
                None => !valid_hex_groups(s@, 6),
            },
    {
        match parse_hex_groups(s, 6) {
            Some(v) => {
                let a = HardwareAddress {
                    octets: [v[0], v[1], v[2], v[3], v[4], v[5]],
                };
                proof {
                    assert(a@ =~= group_octets(s@, 6));
                }
                Some(a)
            },
            None => None,
        }
    }
}

// ---------------------------------------------------------------------------
// Canonical rendering: upper-case hex, colon-separated.
// ---------------------------------------------------------------------------

pub open spec fn hex_upper_char(n: int) -> char {
    if n == 0 {
        '0'
    } else if n == 1 {
        '1'
    } else if n == 2 {
        '2'
    } else if n == 3 {
        '3'
    } else if n == 4 {
        '4'
    } else if n == 5 {
        '5'
    } else if n == 6 {
        '6'
    } else if n == 7 {
        '7'
    } else if n == 8 {
        '8'
    } else if n == 9 {
        '9'
    } else if n == 10 {
        'A'
    } else if n == 11 {
        'B'
    } else if n == 12 {
        'C'
    } else if n == 13 {
        'D'
    } else if n == 14 {
        'E'
    } else {
        'F'
    }
}

/// Two upper-case hex digits of one octet.
pub open spec fn octet_text(b: u8) -> Seq<char> {
    seq![hex_upper_char(b as int / 16), hex_upper_char(b as int % 16)]
}

/// Canonical text of a run of octets: two digits each, joined by `:`.
pub open spec fn octets_text(o: Seq<u8>) -> Seq<char>
    decreases o.len(),
{
    if o.len() == 0 {
        Seq::empty()
    } else if o.len() == 1 {
        octet_text(o[0])
    } else {
        octets_text(o.drop_last()) + seq![':'] + octet_text(o.last())
    }
}

fn hex_upper_str(n: u8) -> (r: &'static str)
    requires
        n < 16,
    ensures
        r@ == seq![hex_upper_char(n as int)],
{
    let r: &'static str = match n {
        0 => "0",
        1 => "1",
        2 => "2",
        3 => "3",
        4 => "4",
        5 => "5",
        6 => "6",
        7 => "7",
        8 => "8",
        9 => "9",
        10 => "A",
        11 => "B",
        12 => "C",
        13 => "D",
        14 => "E",
        _ => "F",
    };
    proof {
        reveal_strlit("0");
        reveal_strlit("1");
        reveal_strlit("2");
        reveal_strlit("3");
        reveal_strlit("4");
        reveal_strlit("5");
        reveal_strlit("6");
        reveal_strlit("7");
        reveal_strlit("8");
        reveal_strlit("9");
        reveal_strlit("A");
        reveal_strlit("B");
        reveal_strlit("C");
        reveal_strlit("D");
        reveal_strlit("E");
        reveal_strlit("F");
        assert(r@ =~= seq![hex_upper_char(n as int)]);
    }
    r
}

fn append_octet(out: &mut String, b: u8)
    ensures
        final(out)@ == old(out)@ + octet_text(b),
{
    out.append(hex_upper_str(b / 16));
    out.append(hex_upper_str(b % 16));
    proof {
        assert(out@ =~= old(out)@ + octet_text(b));
    }
}

/// Renders `count` octets of `o` canonically: upper-case hex, `:`-separated.
pub fn render_octets(o: &[u8], count: usize) -> (r: String)
    requires
        count <= o@.len(),
    ensures
        r@ == octets_text(o@.take(count as int)),
{
    let mut out = String::new();
    let mut k: usize = 0;
    proof {
        assert(o@.take(0) =~= Seq::<u8>::empty());
    }
    while k < count
        invariant
            k <= count,
            count <= o@.len(),
            out@ == octets_text(o@.take(k as int)),
        decreases count - k,
    {
        if k > 0 {
            out.append(":");
            proof {
                reveal_strlit(":");
                assert(":"@ =~= seq![':']);
            }
        }
        append_octet(&mut out, o[k]);
        proof {
            let t = o@.take(k + 1 as int);
            assert(t.drop_last() =~= o@.take(k as int));
            assert(t.last() == o@[k as int]);
            if k == 0 {
                assert(out@ =~= octets_text(t));
            } else {
                assert(out@ =~= octets_text(t));
            }
        }
        k = k + 1;
    }
    out
}

impl HardwareAddress {
    /// Canonical textual form, e.g. `AA:BB:CC:DD:EE:FF`.
    pub fn to_text(&self) -> (r: String)
        ensures
            r@ == octets_text(self@),
    {
        let r = render_octets(&self.octets, 6);
        proof {
            assert(self@.take(6) =~= self@);
        }
        r
    }

    /// Canonical text of the first three octets, e.g. `AA:BB:CC`.
    pub fn prefix_text(&self) -> (r: String)
        ensures
            r@ == octets_text(self@.take(3)),
    {
        render_octets(&self.octets, 3)
    }
}

proof fn lemma_hex_upper_char_val(v: int)
    requires
        0 <= v < 16,
    ensures
        is_hex_digit(hex_upper_char(v)),
        hex_val(hex_upper_char(v)) == v,
{
}

proof fn lemma_octets_text_shape(o: Seq<u8>)
    requires
        o.len() >= 1,
    ensures
        octets_text(o).len() == 3 * o.len() - 1,
        forall|k: int|
            0 <= k < o.len() ==> octets_text(o)[3 * k] == hex_upper_char(#[trigger] o[k] as int
                / 16) && octets_text(o)[3 * k + 1] == hex_upper_char(o[k] as int % 16),
        forall|k: int| 0 <= k < o.len() - 1 ==> #[trigger] octets_text(o)[3 * k + 2] == ':',
    decreases o.len(),
{
    let t = octets_text(o);
    if o.len() == 1 {
        assert(t == octet_text(o[0]));
        assert(t[0] == hex_upper_char(o[0] as int / 16));
        assert(t[1] == hex_upper_char(o[0] as int % 16));
    } else {
        let p = o.drop_last();
        let m = p.len() as int;
        lemma_octets_text_shape(p);
        let pv = octets_text(p);
        let tail = octet_text(o.last());
        assert(t == pv + seq![':'] + tail);
        assert(t.len() == 3 * o.len() - 1);
        assert forall|k: int| 0 <= k < o.len() implies t[3 * k] == hex_upper_char(
            #[trigger] o[k] as int / 16,
        ) && t[3 * k + 1] == hex_upper_char(o[k] as int % 16) by {
            if k < m {
                assert(3 * k + 1 < pv.len());
                assert(t[3 * k] == pv[3 * k]);
                assert(t[3 * k + 1] == pv[3 * k + 1]);
                assert(o[k] == p[k]);
            } else {
                assert(k == m);
                assert(3 * k == pv.len() + 1);
                assert(t[3 * k] == tail[0]);
                assert(t[3 * k + 1] == tail[1]);
                assert(o[k] == o.last());
            }
        }
        assert forall|k: int| 0 <= k < o.len() - 1 implies #[trigger] t[3 * k + 2] == ':' by {
            if k < m - 1 {
                assert(3 * k + 2 < pv.len());
                assert(t[3 * k + 2] == pv[3 * k + 2]);
            } else {
                assert(k == m - 1);
                assert(3 * k + 2 == pv.len());
                assert(t[3 * k + 2] == ':');
            }
        }
    }
}

/// The canonical rendering is itself well-formed address text and parses
/// back to the very octets it was rendered from.
pub proof fn lemma_render_parse_round_trip(o: Seq<u8>)
    requires
        o.len() >= 1,
    ensures
        valid_hex_groups(octets_text(o), o.len() as int),
        group_octets(octets_text(o), o.len() as int) =~= o,
{
    let t = octets_text(o);
    let n = o.len() as int;
    lemma_octets_text_shape(o);
    assert forall|i: int| 0 <= i < t.len() implies (if i % 3 == 2 {
        is_sep(#[trigger] t[i])
    } else {
        is_hex_digit(t[i])
    }) by {
        let k = i / 3;
        vstd::arithmetic::div_mod::lemma_fundamental_div_mod(i, 3);
        if i % 3 == 2 {
            assert(i == 3 * k + 2 && 0 <= k < n - 1);
            assert(t[i] == ':');
        } else if i % 3 == 1 {
            assert(i == 3 * k + 1 && 0 <= k < n);
            lemma_hex_upper_char_val(o[k] as int % 16);
        } else {
            assert(i == 3 * k && 0 <= k < n);
            lemma_hex_upper_char_val(o[k] as int / 16);
        }
    }
    assert forall|k: int| 0 <= k < n implies #[trigger] group_octets(t, n)[k] == o[k] by {
        lemma_hex_upper_char_val(o[k] as int / 16);
        lemma_hex_upper_char_val(o[k] as int % 16);
        assert(hex_val(t[3 * k]) == o[k] as int / 16);
        assert(hex_val(t[3 * k + 1]) == o[k] as int % 16);
        vstd::arithmetic::div_mod::lemma_fundamental_div_mod(o[k] as int, 16);
    }
}

// ---------------------------------------------------------------------------
// Integer keys: octet runs read as base-256 numbers, used as map keys.
// ---------------------------------------------------------------------------

/// The octets read as one base-256 number, most significant first.
pub open spec fn bytes_key(o: Seq<u8>) -> int
    decreases o.len(),
{
    if o.len() == 0 {
        0
    } else {
        256 * bytes_key(o.drop_last()) + o.last()
    }
}

pub proof fn lemma_bytes_key_bound(o: Seq<u8>)
    ensures
        0 <= bytes_key(o),
        o.len() <= 6 ==> bytes_key(o) < 0x1_0000_0000_0000,
    decreases o.len(),
{
    if o.len() > 0 {
        lemma_bytes_key_bound(o.drop_last());
        if o.len() <= 6 {
            assert(o.drop_last().len() <= 5);
            lemma_bytes_key_bound_small(o.drop_last());
        }
    }
}

proof fn lemma_bytes_key_bound_small(o: Seq<u8>)
    ensures
        0 <= bytes_key(o),
        o.len() <= 5 ==> bytes_key(o) < 0x100_0000_0000,
        o.len() <= 4 ==> bytes_key(o) < 0x1_0000_0000,
        o.len() <= 3 ==> bytes_key(o) < 0x100_0000,
        o.len() <= 2 ==> bytes_key(o) < 0x1_0000,
        o.len() <= 1 ==> bytes_key(o) < 0x100,
    decreases o.len(),
{
    if o.len() > 0 {
        lemma_bytes_key_bound_small(o.drop_last());
    }
}

/// Two equally long octet runs with the same key are equal.
pub proof fn lemma_bytes_key_injective(a: Seq<u8>, b: Seq<u8>)
    requires
        a.len() == b.len(),
        bytes_key(a) == bytes_key(b),
    ensures
        a =~= b,
    decreases a.len(),
{
    if a.len() > 0 {
        lemma_bytes_key_bound(a.drop_last());
        lemma_bytes_key_bound(b.drop_last());
        vstd::arithmetic::div_mod::lemma_fundamental_div_mod_converse_mod(
            bytes_key(a),
            256,
            bytes_key(a.drop_last()),
            a.last() as int,
        );
        vstd::arithmetic::div_mod::lemma_fundamental_div_mod_converse_mod(
            bytes_key(b),
            256,
            bytes_key(b.drop_last()),
            b.last() as int,
        );
        vstd::arithmetic::div_mod::lemma_fundamental_div_mod_converse_div(
            bytes_key(a),
            256,
            bytes_key(a.drop_last()),
            a.last() as int,
        );
        vstd::arithmetic::div_mod::lemma_fundamental_div_mod_converse_div(
            bytes_key(b),
            256,
            bytes_key(b.drop_last()),
            b.last() as int,
        );
        lemma_bytes_key_injective(a.drop_last(), b.drop_last());
        assert(a.last() == b.last());
        assert(a =~= a.drop_last().push(a.last()));
        assert(b =~= b.drop_last().push(b.last()));
    }
}

impl HardwareAddress {
    /// Key of the vendor (OUI) prefix: the first three octets.
    pub open spec fn spec_oui_key(&self) -> u64 {
        bytes_key(self@.take(3)) as u64
    }

    /// Key of the whole address.
    pub open spec fn spec_addr_key(&self) -> u64 {
        bytes_key(self@) as u64
    }

    pub fn oui_key(&self) -> (r: u64)
        ensures
            r == self.spec_oui_key(),
    {
        let o = &self.octets;
        let r = (o[0] as u64) * 0x1_0000 + (o[1] as u64) * 0x100 + (o[2] as u64);
        proof {
            let s = self@;
            assert(s.take(3).drop_last() =~= s.take(2));
            assert(s.take(2).drop_last() =~= s.take(1));
            assert(s.take(1).drop_last() =~= s.take(0));
            assert(s.take(0) =~= Seq::<u8>::empty());
            assert(bytes_key(s.take(0)) == 0);
            assert(bytes_key(s.take(1)) == 256 * bytes_key(s.take(0)) + s[0]);
            assert(bytes_key(s.take(2)) == 256 * bytes_key(s.take(1)) + s[1]);
            assert(bytes_key(s.take(3)) == 256 * bytes_key(s.take(2)) + s[2]);
        }
        r
    }

    pub fn addr_key(&self) -> (r: u64)
        ensures
            r == self.spec_addr_key(),
    {
        let o = &self.octets;
        let r = ((((((o[0] as u64) * 0x100 + (o[1] as u64)) * 0x100 + (o[2] as u64)) * 0x100 + (
        o[3] as u64)) * 0x100 + (o[4] as u64)) * 0x100) + (o[5] as u64);
        proof {
            let s = self@;
            assert(s.take(6) =~= s);
            assert(s.take(6).drop_last() =~= s.take(5));
            assert(s.take(5).drop_last() =~= s.take(4));
            assert(s.take(4).drop_last() =~= s.take(3));
            assert(s.take(3).drop_last() =~= s.take(2));
            assert(s.take(2).drop_last() =~= s.take(1));
            assert(s.take(1).drop_last() =~= s.take(0));
            assert(s.take(0) =~= Seq::<u8>::empty());
            assert(bytes_key(s.take(0)) == 0);
            assert(bytes_key(s.take(1)) == 256 * bytes_key(s.take(0)) + s[0]);
            assert(bytes_key(s.take(2)) == 256 * bytes_key(s.take(1)) + s[1]);
            assert(bytes_key(s.take(3)) == 256 * bytes_key(s.take(2)) + s[2]);
            assert(bytes_key(s.take(4)) == 256 * bytes_key(s.take(3)) + s[3]);
            assert(bytes_key(s.take(5)) == 256 * bytes_key(s.take(4)) + s[4]);
            assert(bytes_key(s.take(6)) == 256 * bytes_key(s.take(5)) + s[5]);
        }
        r
    }
}

/// Addresses with the same key are the same address.
pub proof fn lemma_addr_key_injective(a: HardwareAddress, b: HardwareAddress)
    requires
        a.spec_addr_key() == b.spec_addr_key(),
    ensures
        a@ =~= b@,
{
    lemma_bytes_key_bound(a@);
    lemma_bytes_key_bound(b@);
    lemma_bytes_key_injective(a@, b@);
}

// ---------------------------------------------------------------------------
// Case-insensitivity.
// ---------------------------------------------------------------------------

/// The two characters differ at most in ASCII letter case.
pub open spec fn eq_ignore_case_char(c: char, d: char) -> bool {
    ||| c == d
    ||| ('A' <= c && c <= 'Z' && d as u32 == c as u32 + 32)
    ||| ('A' <= d && d <= 'Z' && c as u32 == d as u32 + 32)
}

/// The two texts differ at most in ASCII letter case.
pub open spec fn eq_ignore_case(s: Seq<char>, t: Seq<char>) -> bool {
    &&& s.len() == t.len()
    &&& forall|i: int| 0 <= i < s.len() ==> eq_ignore_case_char(#[trigger] s[i], #[trigger] t[i])
}

proof fn lemma_case_char(c: char, d: char)
    requires
        eq_ignore_case_char(c, d),
    ensures
        is_sep(c) == is_sep(d),
        is_hex_digit(c) == is_hex_digit(d),
        is_hex_digit(c) ==> hex_val(c) == hex_val(d),
{
}

/// Textual hardware addresses are read case-insensitively: texts that differ
/// only in ASCII letter case are either both malformed or denote the same
/// octets.
pub proof fn lemma_parse_case_insensitive(s: Seq<char>, t: Seq<char>, n: int)
    requires
        eq_ignore_case(s, t),
    ensures
        valid_hex_groups(s, n) == valid_hex_groups(t, n),
        valid_hex_groups(s, n) ==> group_octets(s, n) =~= group_octets(t, n),
{
    if valid_hex_groups(s, n) {
        assert forall|i: int| 0 <= i < t.len() implies (if i % 3 == 2 {
            is_sep(#[trigger] t[i])
        } else {
            is_hex_digit(t[i])
        }) by {
            lemma_case_char(s[i], t[i]);
        }
        assert(valid_hex_groups(t, n));
        assert forall|k: int| 0 <= k < n implies #[trigger] group_octets(s, n)[k] == group_octets(
            t,
            n,
        )[k] by {
            assert(is_hex_digit(s[3 * k]));
            assert(is_hex_digit(s[3 * k + 1]));
            lemma_case_char(s[3 * k], t[3 * k]);
            lemma_case_char(s[3 * k + 1], t[3 * k + 1]);
        }
        assert(group_octets(s, n) =~= group_octets(t, n));
    }
    if valid_hex_groups(t, n) {
        assert forall|i: int| 0 <= i < s.len() implies (if i % 3 == 2 {
            is_sep(#[trigger] s[i])
        } else {
            is_hex_digit(s[i])
        }) by {
            lemma_case_char(s[i], t[i]);
        }
        assert(valid_hex_groups(s, n));
    }
}

} // verus!
