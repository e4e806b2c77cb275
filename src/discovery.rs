//! Service discovery: the advertised names and the tenant filter on what a
//! browse finds.

use vstd::prelude::*;
use vstd::utf8::{char_is_scalar, encode_scalar, encode_utf8};
use crate::outside::string_of;
use crate::text::chars_of;
use crate::text::{owned, text_eq};
use crate::types::DiscoveredServer;

verus! {

/// The service type under which leaders advertise themselves.
pub fn get_mdns_service_type() -> (r: String)
    ensures
        r@ == "_handsfree._tcp.local."@,
{
    owned("_handsfree._tcp.local.")
}

/// The base of a leader's advertised instance name.
pub fn get_mdns_service_name() -> (r: String)
    ensures
        r@ == "Handsfree POS"@,
{
    owned("Handsfree POS")
}

/// How many bytes of the tenant id go into the instance name.
pub const TENANT_PREFIX_BYTES: usize = 8;

/// How many leading characters of `s` fit, encoded in UTF-8, in `budget`
/// bytes.
pub open spec fn chars_within(s: Seq<char>, budget: int) -> nat
    decreases s.len(),
{
    if s.len() == 0 {
        0
    } else if encode_scalar(s[0] as u32).len() <= budget {
        1 + chars_within(s.drop_first(), budget - encode_scalar(s[0] as u32).len())
    } else {
        0
    }
}

/// The advertised instance name of a tenant's leader: the service name and
/// the longest start of the tenant id whose UTF-8 form has at most
/// `TENANT_PREFIX_BYTES` bytes.
pub open spec fn instance_name_of(tenant: Seq<char>) -> Seq<char> {
    "Handsfree POS-"@ + tenant.take(chars_within(tenant, TENANT_PREFIX_BYTES as int) as int)
}

/// The characters counted by `chars_within` fit in the budget, and one more
/// would not.
pub proof fn lemma_chars_within(s: Seq<char>, budget: int)
    requires
        budget >= 0,
    ensures
        chars_within(s, budget) <= s.len(),
        encode_utf8(s.take(chars_within(s, budget) as int)).len() <= budget,
        chars_within(s, budget) < s.len() ==> encode_utf8(
            s.take(chars_within(s, budget) as int + 1),
        ).len() > budget,
    decreases s.len(),
{
    if s.len() > 0 {
        let w = encode_scalar(s[0] as u32).len();
        let k = chars_within(s, budget);
        if w <= budget {
            lemma_chars_within(s.drop_first(), budget - w);
            assert(s.take(k as int).drop_first() =~= s.drop_first().take(k - 1));
            if k < s.len() {
                assert(s.take(k as int + 1).drop_first() =~= s.drop_first().take(k as int));
            }
        } else {
            assert(s.take(0) =~= Seq::<char>::empty());
            assert(s.take(1).drop_first() =~= Seq::<char>::empty());
        }
    }
}

/// The number of bytes of a character in UTF-8.
fn utf8_width(c: char) -> (r: usize)
    ensures
        r == encode_scalar(c as u32).len(),
{
    proof {
        char_is_scalar(c);
    }
    let n = c as u32;
    if n <= 0x7F {
        1
    } else if n <= 0x7FF {
        2
    } else if n <= 0xFFFF {
        3
    } else {
        4
    }
}

/// How many leading characters fit in `budget` bytes of UTF-8.
fn fitting_chars(t: &Vec<char>, budget: usize) -> (k: usize)
    ensures
        k == chars_within(t@, budget as int),
{
    let mut k: usize = 0;
    let mut left: usize = budget;
    assert(t@.skip(0) =~= t@);
    while k < t.len()
        invariant
            k <= t.len(),
            left <= budget,
            chars_within(t@, budget as int) == k + chars_within(t@.skip(k as int), left as int),
        decreases t.len() - k,
    {
        let w = utf8_width(t[k]);
        let ghost rest = t@.skip(k as int);
        assert(rest[0] == t@[k as int]);
        if w > left {
            return k;
        }
        assert(rest.drop_first() =~= t@.skip(k + 1));
        left = left - w;
        k = k + 1;
    }
    assert(t@.skip(k as int) =~= Seq::<char>::empty());
    k
}

/// The instance name: the service name and the start of the tenant id, so
/// that leaders of tenants that share a network do not collide.
pub fn instance_name(tenant_id: &str) -> (r: String)
    ensures
        r@ == instance_name_of(tenant_id@),
        encode_utf8(r@.skip("Handsfree POS-"@.len() as int)).len() <= TENANT_PREFIX_BYTES,
{
    let mut out = chars_of("Handsfree POS-");
    let t = chars_of(tenant_id);
    let n = fitting_chars(&t, TENANT_PREFIX_BYTES);
    proof {
        lemma_chars_within(t@, TENANT_PREFIX_BYTES as int);
    }
    let ghost base = out@;
    let mut k: usize = 0;
    while k < n
        invariant
            k <= n <= t.len(),
            out@ == base + t@.take(k as int),
        decreases n - k,
    {
        out.push(t[k]);
        k = k + 1;
        assert(t@.take(k as int) =~= t@.take(k - 1).push(t@[k - 1]));
    }
    assert(out@.skip(base.len() as int) =~= t@.take(n as int));
    string_of(&out)
}

/// A record passes the tenant filter: there is none, or the record
/// advertises that tenant.
pub open spec fn passes(filter: Option<Seq<char>>, tenant: Option<Seq<char>>) -> bool {
    match filter {
        None => true,
        Some(f) => tenant == Some(f),
    }
}

/// The view of an optional text.
pub open spec fn opt_view(s: Option<String>) -> Option<Seq<char>> {
    match s {
        Some(x) => Some(x@),
        None => None,
    }
}

/// The records that pass the filter, in order.
pub open spec fn kept(xs: Seq<DiscoveredServer>, filter: Option<Seq<char>>) -> Seq<
    DiscoveredServer,
>
    decreases xs.len(),
{
    if xs.len() == 0 {
        Seq::empty()
    } else if passes(filter, opt_view(xs.last().tenant_id)) {
        kept(xs.drop_last(), filter).push(xs.last())
    } else {
        kept(xs.drop_last(), filter)
    }
}

/// Whether a record's tenant passes the filter.
pub fn tenant_matches(filter: &Option<String>, tenant: &Option<String>) -> (r: bool)
    ensures
        r == passes(opt_view(*filter), opt_view(*tenant)),
{
    match filter {
        None => true,
        Some(f) => match tenant {
            Some(t) => text_eq(t.as_str(), f.as_str()),
            None => false,
        },
    }
}

/// The discovered records that advertise the tenant, if one is given.
pub fn filter_servers(found: Vec<DiscoveredServer>, tenant: &Option<String>) -> (r: Vec<
    DiscoveredServer,
>)
    ensures
        r@ == kept(found@, opt_view(*tenant)),
{
    let mut r: Vec<DiscoveredServer> = Vec::new();
    let mut rest = found;
    let mut kept_rev: Vec<DiscoveredServer> = Vec::new();
    let ghost all = rest@;
    // Walk from the back, so that each step drops the last record.
    while rest.len() > 0
        invariant
            kept(all, opt_view(*tenant)) == kept(rest@, opt_view(*tenant)) + kept_rev@.reverse(),
        decreases rest.len(),
    {
        let ghost before = rest@;
        let x = rest.pop().unwrap();
        proof {
            assert(before.drop_last() == rest@);
        }
        if tenant_matches(tenant, &x.tenant_id) {
            kept_rev.push(x);
        }
    }
    assert(kept(rest@, opt_view(*tenant)) =~= Seq::<DiscoveredServer>::empty());
    let ghost target = kept_rev@.reverse();
    while kept_rev.len() > 0
        invariant
            r@ + kept_rev@.reverse() == target,
        decreases kept_rev.len(),
    {
        let x = kept_rev.pop().unwrap();
        r.push(x);
    }
    r
}

} // verus!
