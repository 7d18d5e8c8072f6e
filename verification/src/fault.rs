//! Fault classes: what broke an attempt, as `retry_budgets` keys name it.
use vstd::prelude::*;
use vstd::string::*;
use crate::text::{chars_of, same, upper_ascii};

verus! {

/// Why an attempt failed.
#[derive(Debug, Clone, Copy, PartialEq, Eq, Structural)]
pub enum FaultClass {
    GpuEcc,
    FabricIb,
    NanLoss,
    CheckpointCorrupt,
    Cancelled,
    Unknown,
}

/// The canonical spellings, as one list for messages.
pub const FAULT_CLASS_LIST: &'static str = "gpu-ecc, fabric-ib, nan-loss, checkpoint-corrupt, cancelled, unknown";

/// One character of a key as the tolerant reader sees it.
pub open spec fn folded_char(c: char) -> char {
    if upper_ascii(c) {
        ((c as u32 + 32) as u32) as char
    } else if c == '_' {
        '-'
    } else {
        c
    }
}

/// A key with its ASCII letters lower-cased and `_` read as `-`.
pub open spec fn folded(s: Seq<char>) -> Seq<char> {
    s.map_values(|c: char| folded_char(c))
}

/// The class that a key means to the tolerant reader.
pub open spec fn class_of(s: Seq<char>) -> FaultClass {
    let k = folded(s);
    if k == "gpu-ecc"@ {
        FaultClass::GpuEcc
    } else if k == "fabric-ib"@ {
        FaultClass::FabricIb
    } else if k == "nan-loss"@ {
        FaultClass::NanLoss
    } else if k == "checkpoint-corrupt"@ {
        FaultClass::CheckpointCorrupt
    } else if k == "cancelled"@ || k == "canceled"@ {
        FaultClass::Cancelled
    } else {
        FaultClass::Unknown
    }
}

impl FaultClass {
    /// The canonical spelling.
    pub open spec fn spelling(self) -> Seq<char> {
        match self {
            FaultClass::GpuEcc => "gpu-ecc"@,
            FaultClass::FabricIb => "fabric-ib"@,
            FaultClass::NanLoss => "nan-loss"@,
            FaultClass::CheckpointCorrupt => "checkpoint-corrupt"@,
            FaultClass::Cancelled => "cancelled"@,
            FaultClass::Unknown => "unknown"@,
        }
    }

    pub fn as_str(&self) -> (r: &'static str)
        ensures
            r@ == self.spelling(),
    {
        match self {
            FaultClass::GpuEcc => "gpu-ecc",
            FaultClass::FabricIb => "fabric-ib",
            FaultClass::NanLoss => "nan-loss",
            FaultClass::CheckpointCorrupt => "checkpoint-corrupt",
            FaultClass::Cancelled => "cancelled",
            FaultClass::Unknown => "unknown",
        }
    }

    /// Reads a class tolerantly: letter case and `_` for `-` do not matter, and
    /// what names no class is `Unknown`.
    pub fn parse(key: &str) -> (r: FaultClass)
        ensures
            r == class_of(key@),
    {
        let v: Vec<char> = chars_of(key);
        let mut k: String = String::new();
        let mut i: usize = 0;
        while i < v.len()
            invariant
                i <= v@.len(),
                v@ == key@,
                k@ == folded(key@.take(i as int)),
            decreases v@.len() - i,
        {
            let c: char = v[i];
            let f: char = if 'A' <= c && c <= 'Z' {
                ((c as u8) + 32) as char
            } else if c == '_' {
                '-'
            } else {
                c
            };
            k.push(f);
            assert(folded(key@.take(i as int + 1)) =~= folded(key@.take(i as int)).push(
                folded_char(key@[i as int]),
            ));
            i += 1;
        }
        assert(key@.take(key@.len() as int) =~= key@);
        let k: &str = k.as_str();
        if same(k, "gpu-ecc") {
            FaultClass::GpuEcc
        } else if same(k, "fabric-ib") {
            FaultClass::FabricIb
        } else if same(k, "nan-loss") {
            FaultClass::NanLoss
        } else if same(k, "checkpoint-corrupt") {
            FaultClass::CheckpointCorrupt
        } else if same(k, "cancelled") || same(k, "canceled") {
            FaultClass::Cancelled
        } else {
            FaultClass::Unknown
        }
    }
}

/// A key in its canonical spelling: the only form a budget lookup finds.
pub open spec fn is_canonical(key: Seq<char>) -> bool {
    key == class_of(key).spelling()
}

/// Every canonical spelling is read back as its own class.
pub proof fn law_canonical_round_trip(class: FaultClass)
    ensures
        class_of(class.spelling()) == class,
        is_canonical(class.spelling()),
{
    reveal_strlit("gpu-ecc");
    reveal_strlit("fabric-ib");
    reveal_strlit("nan-loss");
    reveal_strlit("checkpoint-corrupt");
    reveal_strlit("cancelled");
    reveal_strlit("canceled");
    reveal_strlit("unknown");
    assert(folded(class.spelling()) =~= class.spelling());
    assert("fabric-ib"@.len() == 9 && "cancelled"@.len() == 9);
    assert("fabric-ib"@[0] == 'f' && "cancelled"@[0] == 'c');
    assert("gpu-ecc"@[0] == 'g' && "unknown"@[0] == 'u');
    assert("nan-loss"@[0] == 'n' && "canceled"@[0] == 'c');
}

} // verus!
