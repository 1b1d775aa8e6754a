//! Peripheral identifiers.
//!
//! `ButtonId` and `LedId` are closed enumerations.  On every wire
//! surface (socket messages, D-Bus object paths, configuration keys)
//! they appear as their kebab-case names; `name`/`from_name` are the
//! verified bijection between identifiers and names.

use vstd::prelude::*;

verus! {

/// Button type
#[derive(Clone, Copy, Debug, PartialEq, Eq, Structural, PartialOrd, Ord, Hash)]
pub enum ButtonId {
    /// System power button
    Power,
    /// System reset button
    Reset,
    /// Clear CMOS button
    Clear,
}

/// LED type
#[derive(Clone, Copy, Debug, PartialEq, Eq, Structural, PartialOrd, Ord, Hash)]
pub enum LedId {
    /// Power status LED
    Power,
    /// Disk usage LED
    Disk,
    /// Ethernet usage LED
    Ether,
}

impl ButtonId {
    /// The wire name of each button.
    pub open spec fn name_spec(&self) -> Seq<char> {
        match self {
            ButtonId::Power => "power"@,
            ButtonId::Reset => "reset"@,
            ButtonId::Clear => "clear"@,
        }
    }

    /// Kebab-case wire name of this button.
    pub fn name(&self) -> (r: &'static str)
        ensures
            r@ == self.name_spec(),
    {
        match self {
            ButtonId::Power => "power",
            ButtonId::Reset => "reset",
            ButtonId::Clear => "clear",
        }
    }

    /// Which button a wire name denotes, if any.
    pub open spec fn from_name_spec(s: Seq<char>) -> Option<ButtonId> {
        if s == "power"@ {
            Some(ButtonId::Power)
        } else if s == "reset"@ {
            Some(ButtonId::Reset)
        } else if s == "clear"@ {
            Some(ButtonId::Clear)
        } else {
            None
        }
    }

    /// Parse a kebab-case wire name back into a button identifier.
    pub fn from_name(s: &str) -> (r: Option<ButtonId>)
        ensures
            r == ButtonId::from_name_spec(s@),
    {
        if streq(s, "power") {
            Some(ButtonId::Power)
        } else if streq(s, "reset") {
            Some(ButtonId::Reset)
        } else if streq(s, "clear") {
            Some(ButtonId::Clear)
        } else {
            None
        }
    }

    /// Every button identifier, in declaration order.
    pub fn all() -> (r: Vec<ButtonId>)
        ensures
            r@ == seq![ButtonId::Power, ButtonId::Reset, ButtonId::Clear],
    {
        let mut v: Vec<ButtonId> = Vec::new();
        v.push(ButtonId::Power);
        v.push(ButtonId::Reset);
        v.push(ButtonId::Clear);
        proof {
            assert(v@ =~= seq![ButtonId::Power, ButtonId::Reset, ButtonId::Clear]);
        }
        v
    }
}

impl LedId {
    /// The wire name of each LED.
    pub open spec fn name_spec(&self) -> Seq<char> {
        match self {
            LedId::Power => "power"@,
            LedId::Disk => "disk"@,
            LedId::Ether => "ether"@,
        }
    }

    /// Kebab-case wire name of this LED.
    pub fn name(&self) -> (r: &'static str)
        ensures
            r@ == self.name_spec(),
    {
        match self {
            LedId::Power => "power",
            LedId::Disk => "disk",
            LedId::Ether => "ether",
        }
    }

    /// Which LED a wire name denotes, if any.
    pub open spec fn from_name_spec(s: Seq<char>) -> Option<LedId> {
        if s == "power"@ {
            Some(LedId::Power)
        } else if s == "disk"@ {
            Some(LedId::Disk)
        } else if s == "ether"@ {
            Some(LedId::Ether)
        } else {
            None
        }
    }

    /// Parse a kebab-case wire name back into an LED identifier.
    pub fn from_name(s: &str) -> (r: Option<LedId>)
        ensures
            r == LedId::from_name_spec(s@),
    {
        if streq(s, "power") {
            Some(LedId::Power)
        } else if streq(s, "disk") {
            Some(LedId::Disk)
        } else if streq(s, "ether") {
            Some(LedId::Ether)
        } else {
            None
        }
    }

    /// Every LED identifier, in declaration order.
    pub fn all() -> (r: Vec<LedId>)
        ensures
            r@ == seq![LedId::Power, LedId::Disk, LedId::Ether],
    {
        let mut v: Vec<LedId> = Vec::new();
        v.push(LedId::Power);
        v.push(LedId::Disk);
        v.push(LedId::Ether);
        proof {
            assert(v@ =~= seq![LedId::Power, LedId::Disk, LedId::Ether]);
        }
        v
    }
}

/// Name and identifier are a bijection for buttons: parsing the name of
/// any button yields that button back.
pub proof fn lemma_button_name_round_trip(id: ButtonId)
    ensures
        ButtonId::from_name_spec(id.name_spec()) == Some(id),
{
    reveal_strlit("power");
    reveal_strlit("reset");
    reveal_strlit("clear");
    match id {
        ButtonId::Power => {
            assert(ButtonId::Power.name_spec() == "power"@);
        },
        ButtonId::Reset => {
            assert("reset"@ != "power"@) by {
                assert("reset"@[0] != "power"@[0]);
            }
        },
        ButtonId::Clear => {
            assert("clear"@ != "power"@) by {
                assert("clear"@[0] != "power"@[0]);
            }
            assert("clear"@ != "reset"@) by {
                assert("clear"@[0] != "reset"@[0]);
            }
        },
    }
}

/// Name and identifier are a bijection for LEDs: parsing the name of
/// any LED yields that LED back.
pub proof fn lemma_led_name_round_trip(id: LedId)
    ensures
        LedId::from_name_spec(id.name_spec()) == Some(id),
{
    reveal_strlit("power");
    reveal_strlit("disk");
    reveal_strlit("ether");
    match id {
        LedId::Power => {},
        LedId::Disk => {
            assert("disk"@ != "power"@) by {
                assert("disk"@.len() != "power"@.len());
            }
        },
        LedId::Ether => {
            assert("ether"@ != "power"@) by {
                assert("ether"@[0] != "power"@[0]);
            }
            assert("ether"@ != "disk"@) by {
                assert("ether"@.len() != "disk"@.len());
            }
        },
    }
}

/// Character-for-character string comparison.
pub fn streq(a: &str, b: &str) -> (r: bool)
    ensures
        r == (a@ == b@),
{
    let alen = a.unicode_len();
    let blen = b.unicode_len();
    if alen != blen {
        assert(a@.len() != b@.len());
        return false;
    }
    let mut i: usize = 0;
    while i < alen
        invariant
            i <= alen,
            alen == a@.len(),
            alen == b@.len(),
            forall|j: int| 0 <= j < i ==> a@[j] == b@[j],
        decreases alen - i,
    {
        if a.get_char(i) != b.get_char(i) {
            return false;
        }
        i += 1;
    }
    proof {
        assert(a@ =~= b@);
    }
    true
}

} // verus!
