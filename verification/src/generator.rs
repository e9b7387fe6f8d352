//! Requests to a list of targets, in turn.

use vstd::prelude::*;
use vstd::string::*;

verus! {

/// A request to send.
pub struct HttpRequestSpec {
    pub method: String,
    pub url: String,
    pub headers: Vec<(String, String)>,
}

/// Goes through the targets in turn.
pub struct SimpleGenerator {
    pub targets: Vec<String>,
    pub method: String,
    pub index: usize,
}

impl SimpleGenerator {
    /// A generator for at least one target.
    pub fn new(targets: Vec<String>, method: String) -> (r: SimpleGenerator)
        requires
            targets.len() > 0,
        ensures
            r == (SimpleGenerator { targets, method, index: 0 }),
    {
        SimpleGenerator { targets, method, index: 0 }
    }

    /// A generator of `GET` requests for at least one target.
    pub fn get(targets: Vec<String>) -> (r: SimpleGenerator)
        requires
            targets.len() > 0,
        ensures
            r.targets == targets,
            r.method@ == "GET"@,
            r.index == 0,
    {
        SimpleGenerator::new(targets, "GET".to_owned())
    }

    /// The next request.
    pub fn generate(&mut self) -> (r: HttpRequestSpec)
        requires
            old(self).targets.len() > 0,
            old(self).index < usize::MAX,
        ensures
            r.url@ == old(self).targets@[old(self).index as int % old(self).targets@.len() as int]@,
            r.method@ == old(self).method@,
            r.headers@.len() == 0,
            *final(self) == (SimpleGenerator {
                index: (old(self).index + 1) as usize,
                ..*old(self)
            }),
    {
        let url: String = self.targets[self.index % self.targets.len()].clone();
        self.index = self.index + 1;
        HttpRequestSpec { method: self.method.clone(), url, headers: Vec::new() }
    }

    /// Replaces the targets and starts over; an empty list is ignored.
    pub fn update_targets(&mut self, targets: Vec<String>)
        ensures
            *final(self) == (if targets.len() == 0 {
                *old(self)
            } else {
                SimpleGenerator { targets, method: old(self).method, index: 0 }
            }),
    {
        if targets.len() > 0 {
            self.targets = targets;
            self.index = 0;
        }
    }
}

/// Over as many requests in a row as there are targets, every target gets exactly one.
pub proof fn every_target_gets_its_turn(index: nat, len: nat, k: int)
    requires
        0 <= k < len,
    ensures
        exists|j: int| 0 <= j < len && #[trigger] ((index + j) % len as int) == k,
        forall|i: int, j: int|
            0 <= i < len && 0 <= j < len && #[trigger] ((index + i) % len as int)
                == #[trigger] ((index + j) % len as int) ==> i == j,
{
    let n = len as int;
    let r = index as int % n;
    let j = if k >= r {
        k - r
    } else {
        k - r + n
    };
    vstd::arithmetic::div_mod::lemma_fundamental_div_mod(index as int, n);
    let q = index as int / n;
    assert(index + j == n * q + (r + j));
    assert(n * q == q * n && n * (q + 1) == (q + 1) * n) by (nonlinear_arith);
    if k >= r {
        vstd::arithmetic::div_mod::lemma_fundamental_div_mod_converse(index + j, n, q, k);
    } else {
        assert(n * (q + 1) == n * q + n) by (nonlinear_arith);
        vstd::arithmetic::div_mod::lemma_fundamental_div_mod_converse(index + j, n, q + 1, k);
    }
    assert(((index + j) % n) == k);
    assert forall|i: int, j: int|
        0 <= i < len && 0 <= j < len && #[trigger] ((index + i) % len as int)
            == #[trigger] ((index + j) % len as int) implies i == j by {
        vstd::arithmetic::div_mod::lemma_fundamental_div_mod(index + i, n);
        vstd::arithmetic::div_mod::lemma_fundamental_div_mod(index + j, n);
        let a = (index + i) / n;
        let b = (index + j) / n;
        assert(i - j == n * (a - b)) by (nonlinear_arith)
            requires
                index + i == n * a + (index + i) % n,
                index + j == n * b + (index + j) % n,
                (index + i) % n == (index + j) % n,
        ;
        assert(a == b) by (nonlinear_arith)
            requires
                i - j == n * (a - b),
                0 <= i < n,
                0 <= j < n,
        ;
    }
}

} // verus!
