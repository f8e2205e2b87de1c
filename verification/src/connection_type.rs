//! The naming scheme: derives the shared-memory object name a connection
//! opens or creates, from its role (root segment, numbered worker segment, or
//! an exact published name) and a caller-supplied prefix.

use vstd::prelude::*;

verus! {

use vstd::string::StringSliceAdditionalSpecFns;

/// The decimal digits of `n`, most significant first, as ASCII bytes.
pub open spec fn decimal(n: nat) -> Seq<u8>
    decreases n,
{
    if n < 10 {
        seq![(48 + n) as u8]
    } else {
        decimal(n / 10).push((48 + n % 10) as u8)
    }
}

/// The name of the root segment for `prefix`: `/{prefix}-root`.
pub open spec fn root_name(prefix: Seq<u8>) -> Seq<u8> {
    seq![47u8] + prefix + seq![45u8, 114u8, 111u8, 111u8, 116u8]
}

/// The name of worker segment `n` for `prefix`: `/{prefix}-worker-{n}`.
pub open spec fn worker_name(prefix: Seq<u8>, n: nat) -> Seq<u8> {
    seq![47u8] + prefix + seq![45u8, 119u8, 111u8, 114u8, 107u8, 101u8, 114u8, 45u8] + decimal(n)
}

pub open spec fn pow10(k: nat) -> nat
    decreases k,
{
    if k == 0 {
        1
    } else {
        10 * pow10((k - 1) as nat)
    }
}

pub proof fn lemma_decimal_len(n: nat, k: nat)
    requires
        k >= 1,
        n < pow10(k),
    ensures
        decimal(n).len() <= k,
    decreases k,
{
    if n >= 10 {
        assert(k != 1);
        assert(n / 10 < pow10((k - 1) as nat)) by (nonlinear_arith)
            requires
                n < 10 * pow10((k - 1) as nat),
        ;
        lemma_decimal_len(n / 10, (k - 1) as nat);
    }
}

/// Any `u64` index prints as at most 20 decimal digits.
pub proof fn lemma_decimal_len_u64(n: nat)
    requires
        n <= u64::MAX,
    ensures
        decimal(n).len() <= 20,
{
    assert(u64::MAX < pow10(20)) by {
        reveal_with_fuel(pow10, 21);
    }
    lemma_decimal_len(n, 20);
}

pub proof fn lemma_decimal_len_ge1(n: nat)
    ensures
        decimal(n).len() >= 1,
    decreases n,
{
    if n >= 10 {
        lemma_decimal_len_ge1(n / 10);
    }
}

/// Two numbers with the same digits are the same number.
pub proof fn lemma_decimal_injective(a: nat, b: nat)
    requires
        decimal(a) == decimal(b),
    ensures
        a == b,
    decreases a,
{
    lemma_decimal_len_ge1(a);
    lemma_decimal_len_ge1(b);
    if a < 10 && b < 10 {
        assert(decimal(a)[0] == decimal(b)[0]);
        assert(decimal(a)[0] == (48 + a) as u8);
        assert(decimal(b)[0] == (48 + b) as u8);
        assert(48 + a < 256 && 48 + b < 256);
        assert((48 + a) as u8 == 48 + a && (48 + b) as u8 == 48 + b);
        assert(a == b);
    } else if a < 10 {
        lemma_decimal_len_ge1(b / 10);
        assert(decimal(b).len() >= 2);
    } else if b < 10 {
        lemma_decimal_len_ge1(a / 10);
        assert(decimal(a).len() >= 2);
    } else {
        let la = decimal(a / 10).len();
        assert(decimal(a)[la as int] == (48 + a % 10) as u8);
        assert(decimal(b).len() == decimal(b / 10).len() + 1);
        assert(la == decimal(b / 10).len());
        assert(decimal(b)[la as int] == (48 + b % 10) as u8);
        assert(decimal(a)[la as int] == decimal(b)[la as int]);
        assert(48 + a % 10 < 256 && 48 + b % 10 < 256);
        assert((48 + a % 10) as u8 == 48 + a % 10 && (48 + b % 10) as u8 == 48 + b % 10);
        assert(a % 10 == b % 10);
        assert forall|i: int| 0 <= i < la implies #[trigger] decimal(a / 10)[i] == decimal(
            b / 10,
        )[i] by {
            assert(decimal(a)[i] == decimal(a / 10)[i]);
            assert(decimal(b)[i] == decimal(b / 10)[i]);
        }
        assert(decimal(a / 10) =~= decimal(b / 10));
        lemma_decimal_injective(a / 10, b / 10);
        vstd::arithmetic::div_mod::lemma_fundamental_div_mod(a as int, 10);
        vstd::arithmetic::div_mod::lemma_fundamental_div_mod(b as int, 10);
        assert(a == b);
    }
}

/// Two worker names under one prefix name the same worker index, or differ.
pub proof fn lemma_worker_name_injective(p: Seq<u8>, a: nat, b: nat)
    requires
        worker_name(p, a) == worker_name(p, b),
    ensures
        a == b,
{
    let k = 9 + p.len() as int;
    assert(worker_name(p, a).len() == k + decimal(a).len());
    assert(worker_name(p, b).len() == k + decimal(b).len());
    assert(decimal(a) =~= decimal(b)) by {
        assert(forall|i: int|
            0 <= i < decimal(a).len() ==> #[trigger] decimal(a)[i] == worker_name(p, a)[k + i]
                && decimal(b)[i] == worker_name(p, b)[k + i]);
    }
    lemma_decimal_injective(a, b);
}

/// The root name of a prefix is no worker name of it: it is always shorter.
pub proof fn lemma_root_name_ne_worker(p: Seq<u8>, n: nat)
    ensures
        root_name(p) != worker_name(p, n),
{
    lemma_decimal_len_ge1(n);
    assert(root_name(p).len() == 6 + p.len());
    assert(worker_name(p, n).len() == 9 + p.len() + decimal(n).len());
}

/// The derived names start with the path separator, and their lengths are
/// pinned by prefix and index: both name valid, boundedly long objects.
pub proof fn lemma_name_shapes(p: Seq<u8>, n: nat)
    ensures
        root_name(p)[0] == 47u8,
        root_name(p).len() == 6 + p.len(),
        worker_name(p, n)[0] == 47u8,
        worker_name(p, n).len() == 9 + p.len() + decimal(n).len(),
        1 <= decimal(n).len(),
        n <= u64::MAX ==> decimal(n).len() <= 20,
{
    lemma_decimal_len_ge1(n);
    if n <= u64::MAX {
        lemma_decimal_len_u64(n);
    }
}

/// Appends the decimal digits of `n` to `out`.
fn push_decimal(n: u64, out: &mut Vec<u8>)
    ensures
        final(out)@ == old(out)@ + decimal(n as nat),
    decreases n,
{
    let ghost entry = out@;
    if n >= 10 {
        push_decimal(n / 10, out);
    }
    let d: u8 = 48 + (n % 10) as u8;
    out.push(d);
    proof {
        assert(out@ =~= entry + decimal(n as nat));
    }
}

/// Identifies which shared-memory object a connection opens or creates, as
/// the fully resolved object name.
#[derive(Debug, Clone)]
pub struct ConnectionType {
    pub id: Vec<u8>,
}

impl ConnectionType {
    /// The root coordination segment of the stream named by `prefix`.
    pub fn root(prefix: &str) -> (ct: ConnectionType)
        ensures
            ct.id@ == root_name(prefix.spec_bytes()),
    {
        let mut id: Vec<u8> = Vec::new();
        id.push(47u8);
        id.extend_from_slice(prefix.as_bytes());
        id.push(45u8);
        id.push(114u8);
        id.push(111u8);
        id.push(111u8);
        id.push(116u8);
        proof {
            assert(id@ =~= root_name(prefix.spec_bytes()));
        }
        ConnectionType { id }
    }

    /// Worker segment number `n` of the stream whose prefix is already at
    /// hand as bytes.
    pub fn worker_bytes(n: usize, prefix: &[u8]) -> (ct: ConnectionType)
        ensures
            ct.id@ == worker_name(prefix@, n as nat),
    {
        let mut id: Vec<u8> = Vec::new();
        id.push(47u8);
        id.extend_from_slice(prefix);
        id.push(45u8);
        id.push(119u8);
        id.push(111u8);
        id.push(114u8);
        id.push(107u8);
        id.push(101u8);
        id.push(114u8);
        id.push(45u8);
        push_decimal(n as u64, &mut id);
        proof {
            assert(id@ =~= worker_name(prefix@, n as nat));
        }
        ConnectionType { id }
    }

    /// Worker segment number `n` of the stream named by `prefix`.
    pub fn worker(n: usize, prefix: &str) -> (ct: ConnectionType)
        ensures
            ct.id@ == worker_name(prefix.spec_bytes(), n as nat),
    {
        let mut id: Vec<u8> = Vec::new();
        id.push(47u8);
        id.extend_from_slice(prefix.as_bytes());
        id.push(45u8);
        id.push(119u8);
        id.push(111u8);
        id.push(114u8);
        id.push(107u8);
        id.push(101u8);
        id.push(114u8);
        id.push(45u8);
        push_decimal(n as u64, &mut id);
        proof {
            assert(id@ =~= worker_name(prefix.spec_bytes(), n as nat));
        }
        ConnectionType { id }
    }

    /// An exact name as published by a writer, taken verbatim.
    pub fn exact(name: &[u8]) -> (ct: ConnectionType)
        ensures
            ct.id@ == name@,
    {
        let mut id: Vec<u8> = Vec::new();
        id.extend_from_slice(name);
        proof {
            assert(id@ =~= name@);
        }
        ConnectionType { id }
    }

    /// A throwaway name under the leading separator, for exercising a single
    /// connection outside any stream.
    pub fn dummy(name: &str) -> (ct: ConnectionType)
        ensures
            ct.id@ == seq![47u8] + name.spec_bytes(),
    {
        let mut id: Vec<u8> = Vec::new();
        id.push(47u8);
        id.extend_from_slice(name.as_bytes());
        proof {
            assert(id@ =~= seq![47u8] + name.spec_bytes());
        }
        ConnectionType { id }
    }

    /// The empty name — no platform accepts it, so opening it must fail.
    pub fn empty() -> (ct: ConnectionType)
        ensures
            ct.id@ == Seq::<u8>::empty(),
    {
        let id: Vec<u8> = Vec::new();
        proof {
            assert(id@ =~= Seq::<u8>::empty());
        }
        ConnectionType { id }
    }

    /// The resolved shared-memory object name.
    pub fn id(&self) -> (r: &Vec<u8>)
        ensures
            r@ == self.id@,
    {
        &self.id
    }
}

} // verus!
