//! Identifiers of runs and of node executions.

use vstd::prelude::*;

use crate::text;

verus! {

/// The bits of a random (version 4) identifier: the version is four, the variant
/// is that of RFC 9562.
pub open spec fn is_random_id(bits: u128) -> bool {
    (bits / 0x1000_0000_0000_0000_0000) % 16 == 4 && (bits / 0x4000_0000_0000_0000) % 4 == 2
}

/// `uuid::Uuid::new_v4`: random bits, but for the version and the variant.
#[verifier::external_body]
pub(crate) fn random_id() -> (bits: u128)
    ensures
        is_random_id(bits),
{
    uuid::Uuid::new_v4().as_u128()
}

/// The hyphenated text of an identifier.
pub open spec fn id_text(bits: u128) -> Seq<char> {
    text::hex_text((bits / 0x1_0000_0000_0000_0000_0000_0000) as nat, 8) + "-"@ + text::hex_text(
        ((bits / 0x1_0000_0000_0000_0000_0000) % 0x1_0000) as nat,
        4,
    ) + "-"@ + text::hex_text(((bits / 0x1_0000_0000_0000_0000) % 0x1_0000) as nat, 4) + "-"@
        + text::hex_text(((bits / 0x1_0000_0000_0000) % 0x1_0000) as nat, 4) + "-"@
        + text::hex_text((bits % 0x1_0000_0000_0000) as nat, 12)
}

/// The `Display` form of `uuid::Uuid`: lower-case hexadecimal digits in groups of
/// 8, 4, 4, 4 and 12 with hyphens between them.
#[verifier::external_body]
pub(crate) fn hyphenated(bits: u128) -> (s: String)
    ensures
        s@ == id_text(bits),
{
    format!("{}", uuid::Uuid::from_u128(bits))
}

/// Identifies one run of a graph.
#[derive(Clone, Copy, PartialEq, Eq, Hash, Structural, Debug)]
pub struct TraceId(pub u128);

impl TraceId {
    /// A random identifier.
    pub fn new() -> (id: Self)
        ensures
            is_random_id(id.0),
    {
        TraceId(random_id())
    }

    /// The hyphenated text.
    pub fn to_string(&self) -> (s: String)
        ensures
            s@ == id_text(self.0),
    {
        hyphenated(self.0)
    }
}

impl Default for TraceId {
    fn default() -> (id: Self)
        ensures
            is_random_id(id.0),
    {
        TraceId::new()
    }
}

/// Identifies one execution of a node.
#[derive(Clone, Copy, PartialEq, Eq, Hash, Structural, Debug)]
pub struct SpanId(pub u128);

impl SpanId {
    /// A random identifier.
    pub fn new() -> (id: Self)
        ensures
            is_random_id(id.0),
    {
        SpanId(random_id())
    }

    /// The hyphenated text.
    pub fn to_string(&self) -> (s: String)
        ensures
            s@ == id_text(self.0),
    {
        hyphenated(self.0)
    }
}

impl Default for SpanId {
    fn default() -> (id: Self)
        ensures
            is_random_id(id.0),
    {
        SpanId::new()
    }
}

/// The text of an identifier has 36 characters in five groups, and each group reads back as
/// its part of the number.
pub proof fn law_identifiers_read_back(bits: u128)
    ensures
        id_text(bits).len() == 36,
        id_text(bits)[8] == '-' && id_text(bits)[13] == '-' && id_text(bits)[18] == '-' && id_text(
            bits,
        )[23] == '-',
        text::digits_value(id_text(bits).subrange(0, 8), 16) == bits / 0x1_0000_0000_0000_0000_0000_0000,
        text::digits_value(id_text(bits).subrange(9, 13), 16) == bits / 0x1_0000_0000_0000_0000_0000
            % 0x1_0000,
        text::digits_value(id_text(bits).subrange(14, 18), 16) == bits / 0x1_0000_0000_0000_0000
            % 0x1_0000,
        text::digits_value(id_text(bits).subrange(19, 23), 16) == bits / 0x1_0000_0000_0000
            % 0x1_0000,
        text::digits_value(id_text(bits).subrange(24, 36), 16) == bits % 0x1_0000_0000_0000,
{
    let a = (bits / 0x1_0000_0000_0000_0000_0000_0000) as nat;
    let b = ((bits / 0x1_0000_0000_0000_0000_0000) % 0x1_0000) as nat;
    let c = ((bits / 0x1_0000_0000_0000_0000) % 0x1_0000) as nat;
    let d = ((bits / 0x1_0000_0000_0000) % 0x1_0000) as nat;
    let e = (bits % 0x1_0000_0000_0000) as nat;
    reveal_strlit("-");
    text::law_hexadecimals_read_back(a, 8);
    text::law_hexadecimals_read_back(b, 4);
    text::law_hexadecimals_read_back(c, 4);
    text::law_hexadecimals_read_back(d, 4);
    text::law_hexadecimals_read_back(e, 12);
    reveal(vstd::arithmetic::power::pow);
    assert(vstd::arithmetic::power::pow(16, 0) == 0x1);
    assert(vstd::arithmetic::power::pow(16, 1) == 0x10);
    assert(vstd::arithmetic::power::pow(16, 2) == 0x100);
    assert(vstd::arithmetic::power::pow(16, 3) == 0x1000);
    assert(vstd::arithmetic::power::pow(16, 4) == 0x10000);
    assert(vstd::arithmetic::power::pow(16, 5) == 0x100000);
    assert(vstd::arithmetic::power::pow(16, 6) == 0x1000000);
    assert(vstd::arithmetic::power::pow(16, 7) == 0x10000000);
    assert(vstd::arithmetic::power::pow(16, 8) == 0x100000000);
    assert(vstd::arithmetic::power::pow(16, 9) == 0x1000000000);
    assert(vstd::arithmetic::power::pow(16, 10) == 0x10000000000);
    assert(vstd::arithmetic::power::pow(16, 11) == 0x100000000000);
    assert(vstd::arithmetic::power::pow(16, 12) == 0x1000000000000);
    vstd::arithmetic::div_mod::lemma_small_mod(a, vstd::arithmetic::power::pow(16, 8) as nat);
    vstd::arithmetic::div_mod::lemma_small_mod(b, vstd::arithmetic::power::pow(16, 4) as nat);
    vstd::arithmetic::div_mod::lemma_small_mod(c, vstd::arithmetic::power::pow(16, 4) as nat);
    vstd::arithmetic::div_mod::lemma_small_mod(d, vstd::arithmetic::power::pow(16, 4) as nat);
    vstd::arithmetic::div_mod::lemma_small_mod(e, vstd::arithmetic::power::pow(16, 12) as nat);
    let t = id_text(bits);
    assert(t.subrange(0, 8) =~= text::hex_text(a, 8));
    assert(t.subrange(9, 13) =~= text::hex_text(b, 4));
    assert(t.subrange(14, 18) =~= text::hex_text(c, 4));
    assert(t.subrange(19, 23) =~= text::hex_text(d, 4));
    assert(t.subrange(24, 36) =~= text::hex_text(e, 12));
}

} // verus!
