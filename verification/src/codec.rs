//! Snapshot serialization: one compact, self-describing binary record
//! per step, holding position, velocity and mass of every particle as
//! 64-bit integers in particle order.

use vstd::prelude::*;

use rustc_serialize::Encodable;

use crate::particle::GravityParticle;

verus! {

/// The MessagePack encoding of a list of 64-bit integers.  The bytes are
/// a function of the field values alone; nothing here states what they
/// look like.
pub uninterp spec fn msgpack_bytes(fields: Seq<int>) -> Seq<u8>;

/// Relies on rmp_serialize::Encoder and rustc_serialize::Encodable for
/// Vec<i64>: encoding to an in-memory buffer cannot fail, and the bytes
/// produced depend only on the encoded values.
#[verifier::external_body]
fn encode_ints(v: &Vec<i64>) -> (r: Vec<u8>)
    ensures
        r@ == msgpack_bytes(v@.map_values(|x: i64| x as int)),
{
    let mut buf: Vec<u8> = Vec::new();
    let _ = v.encode(&mut rmp_serialize::Encoder::new(&mut buf));
    buf
}

/// Field `r` of particle `p` in a snapshot record: the three position
/// components, the three velocity components, then the mass.
pub open spec fn snapshot_field(p: GravityParticle, r: int) -> int {
    if r == 0 {
        p.position.x as int
    } else if r == 1 {
        p.position.y as int
    } else if r == 2 {
        p.position.z as int
    } else if r == 3 {
        p.velocity.x as int
    } else if r == 4 {
        p.velocity.y as int
    } else if r == 5 {
        p.velocity.z as int
    } else {
        p.mass as int
    }
}

/// The flattened field list of a particle sequence: seven fields per
/// particle, concatenated in particle order.
pub open spec fn snapshot_fields(s: Seq<GravityParticle>) -> Seq<int> {
    Seq::new((7 * s.len()) as nat, |k: int| snapshot_field(s[k / 7], k % 7))
}

/// Every snapshot field fits in an `i64`.
pub open spec fn snapshot_representable(s: Seq<GravityParticle>) -> bool {
    forall|k: int|
        0 <= k < 7 * s.len() ==> i64::MIN <= #[trigger] snapshot_fields(s)[k] <= i64::MAX
}

/// Serializes the particle array to the snapshot byte format.  Returns
/// `None` exactly when some field has outgrown the 64-bit record format,
/// which the caller treats as fatal.
pub fn encode_snapshot(particles: &Vec<GravityParticle>) -> (r: Option<Vec<u8>>)
    ensures
        r is Some <==> snapshot_representable(particles@),
        match r {
            Some(bytes) => bytes@ == msgpack_bytes(snapshot_fields(particles@)),
            None => true,
        },
{
    let ghost s = particles@;
    let n = particles.len();
    let mut fields: Vec<i64> = Vec::new();
    let mut i: usize = 0;
    while i < n
        invariant
            n == s.len(),
            s == particles@,
            0 <= i <= n,
            fields@.len() == 7 * i,
            forall|k: int|
                0 <= k < 7 * i ==> (#[trigger] fields@[k]) as int == snapshot_fields(s)[k],
        decreases n - i,
    {
        let p = particles[i];
        let ok = push_field(&mut fields, p.position.x) && push_field(&mut fields, p.position.y)
            && push_field(&mut fields, p.position.z) && push_field(&mut fields, p.velocity.x)
            && push_field(&mut fields, p.velocity.y) && push_field(&mut fields, p.velocity.z)
            && push_field(&mut fields, p.mass);
        if !ok {
            proof {
                let k = fields@.len() as int;
                vstd::arithmetic::div_mod::lemma_fundamental_div_mod_converse(
                    k,
                    7,
                    i as int,
                    k - 7 * i,
                );
                assert(!(i64::MIN <= snapshot_fields(s)[k] <= i64::MAX));
                assert(!snapshot_representable(s));
            }
            return None;
        }
        proof {
            assert forall|k: int| 0 <= k < 7 * (i + 1) implies (#[trigger] fields@[k]) as int
                == snapshot_fields(s)[k] by {
                if k >= 7 * i {
                    vstd::arithmetic::div_mod::lemma_fundamental_div_mod_converse(
                        k,
                        7,
                        i as int,
                        k - 7 * i,
                    );
                }
            }
        }
        i = i + 1;
    }
    proof {
        assert(snapshot_representable(s)) by {
            assert forall|k: int| 0 <= k < 7 * s.len() implies i64::MIN
                <= #[trigger] snapshot_fields(s)[k] <= i64::MAX by {
                assert(fields@[k] as int == snapshot_fields(s)[k]);
            }
        }
        assert(fields@.map_values(|x: i64| x as int) =~= snapshot_fields(s));
    }
    Some(encode_ints(&fields))
}

/// Appends one field if it fits the record format.  On failure the list
/// is left as it was, and its length names the offending field.
fn push_field(fields: &mut Vec<i64>, x: i128) -> (ok: bool)
    ensures
        ok == (i64::MIN <= x <= i64::MAX),
        ok ==> final(fields)@ == old(fields)@.push(x as i64) && x as i64 as int == x as int,
        !ok ==> final(fields)@ == old(fields)@,
{
    if x < -0x8000_0000_0000_0000i128 || x > 0x7FFF_FFFF_FFFF_FFFFi128 {
        return false;
    }
    fields.push(x as i64);
    true
}

} // verus!
