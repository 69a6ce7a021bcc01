//! The measurement key namespace.
//!
//! A measurement key names one measured configuration of one compiled
//! binary: the binary's hash, the runner that measured it, and the isolation
//! it ran under.  Because the key holds the binary's hash rather than the
//! toolchain, two toolchains that emit identical machine code share one
//! entry — the system's principal cost saving.  The key's filename is the
//! hexadecimal SHA-256 digest of its canonical byte encoding.

use vstd::prelude::*;
use vstd::string::StringExecFns;
use vstd::utf8::encode_utf8;

use crate::cpu_shield::ShieldSpec;
use crate::hashing::{append_bytes, le8, sha256, sha256_of, u64_le_bytes};
use crate::storage::{StorageKey, StorageKeySpec};
use crate::textfmt::{bytes_hex, hex_of_bytes, str_eq};

verus! {

/// Names one measured configuration of one compiled binary.
#[derive(Debug)]
pub struct Key {
    pub binary_hash: Vec<u8>,
    pub runner: String,
    pub cpu_shield: Option<ShieldSpec>,
}

/// A measurement key's three components.
pub struct KeyV {
    pub binary_hash: Seq<u8>,
    pub runner: Seq<char>,
    pub cpu_shield: Option<crate::cpu_shield::ShieldSpecV>,
}

impl View for Key {
    type V = KeyV;

    open spec fn view(&self) -> KeyV {
        KeyV {
            binary_hash: self.binary_hash@,
            runner: self.runner@,
            cpu_shield: match self.cpu_shield {
                Some(s) => Some(s@),
                None => None,
            },
        }
    }
}

impl Clone for Key {
    fn clone(&self) -> (r: Key)
        ensures
            r@ == self@,
    {
        Key {
            binary_hash: self.binary_hash.clone(),
            runner: self.runner.clone(),
            cpu_shield: match &self.cpu_shield {
                Some(s) => Some(s.clone()),
                None => None,
            },
        }
    }
}

impl Key {
    /// Builds the key for one measured configuration; an absent runner label
    /// is recorded as `anonymous`.
    pub fn new(hash: Vec<u8>, runner: Option<String>, cpu_shield: Option<ShieldSpec>) -> (r: Key)
        ensures
            r@.binary_hash == hash@,
            r@.runner == (match runner {
                Some(l) => l@,
                None => "anonymous"@,
            }),
            r@.cpu_shield == (match cpu_shield {
                Some(s) => Some(s@),
                None => None::<crate::cpu_shield::ShieldSpecV>,
            }),
    {
        let runner = match runner {
            Some(l) => l,
            None => "anonymous".to_owned(),
        };
        Key { binary_hash: hash, runner, cpu_shield }
    }

    /// Whether two keys name the same configuration.
    pub fn same_key(&self, other: &Key) -> (r: bool)
        ensures
            r == (self@ == other@),
    {
        if self.binary_hash.len() != other.binary_hash.len() {
            return false;
        }
        let mut i: usize = 0;
        while i < self.binary_hash.len()
            invariant
                self@.binary_hash.len() == other@.binary_hash.len(),
                i <= self@.binary_hash.len(),
                forall|k: int| 0 <= k < i ==> self@.binary_hash[k] == other@.binary_hash[k],
            decreases self@.binary_hash.len() - i,
        {
            if self.binary_hash[i] != other.binary_hash[i] {
                return false;
            }
            i = i + 1;
        }
        proof {
            assert(self@.binary_hash =~= other@.binary_hash);
        }
        if !str_eq(self.runner.as_str(), other.runner.as_str()) {
            return false;
        }
        match (&self.cpu_shield, &other.cpu_shield) {
            (None, None) => true,
            (Some(a), Some(b)) => {
                str_eq(a.cpu_mask(), b.cpu_mask()) && a.kthread_on() == b.kthread_on()
            },
            _ => false,
        }
    }

    /// The canonical byte encoding the filename digest is taken over: each
    /// variable-length field behind its eight-byte length, the shield behind
    /// a presence byte.
    pub open spec fn spec_encoded(&self) -> Seq<u8> {
        le8(self@.binary_hash.len()) + self@.binary_hash + le8(encode_utf8(self@.runner).len())
            + encode_utf8(self@.runner) + (match self@.cpu_shield {
            None => seq![0u8],
            Some(s) => seq![
                1u8,
                (if s.kthread_on {
                    1u8
                } else {
                    0u8
                }),
            ] + le8(encode_utf8(s.cpu_mask).len()) + encode_utf8(s.cpu_mask),
        })
    }

    /// Writes the canonical byte encoding out.
    pub fn encoded(&self) -> (r: Vec<u8>)
        ensures
            r@ == self.spec_encoded(),
    {
        let mut r = u64_le_bytes(self.binary_hash.len() as u64);
        append_bytes(&mut r, self.binary_hash.as_slice());
        let runner_bytes = self.runner.as_str().as_bytes();
        let n = u64_le_bytes(runner_bytes.len() as u64);
        append_bytes(&mut r, n.as_slice());
        append_bytes(&mut r, runner_bytes);
        match &self.cpu_shield {
            None => {
                r.push(0u8);
            },
            Some(s) => {
                r.push(1u8);
                if s.kthread_on() {
                    r.push(1u8);
                } else {
                    r.push(0u8);
                }
                let mask_bytes = s.cpu_mask().as_bytes();
                let m = u64_le_bytes(mask_bytes.len() as u64);
                append_bytes(&mut r, m.as_slice());
                append_bytes(&mut r, mask_bytes);
            },
        }
        proof {
            assert(r@ =~= self.spec_encoded());
        }
        r
    }
}

impl StorageKeySpec for Key {
    open spec fn spec_basename(&self) -> Seq<char> {
        hex_of_bytes(sha256_of(self.spec_encoded()))
    }

    open spec fn spec_directory() -> Seq<char> {
        "measurements"@
    }
}

impl StorageKey for Key {
    fn basename(&self) -> (r: String) {
        let encoded = self.encoded();
        let digest = sha256(encoded.as_slice());
        bytes_hex(&digest)
    }

    fn directory() -> (r: String) {
        "measurements".to_owned()
    }
}

} // verus!
