//! Plugin priorities: categories with numeric values, their text form, their
//! order, and their FFI form.
use vstd::prelude::*;
use vstd::string::StringExecFns;
use crate::text::{
    decimal, split_char, parse_unsigned, str_chars, split_chars, parse_unsigned_chars,
    push_char, push_decimal, string_from_chars, lemma_split_without_sep, lemma_split_append,
    lemma_parse_decimal, lemma_decimal_lacks, lemma_decimal_digits, is_digit,
};

verus! {

/// Lowercase form of a text under the Unicode rules that `str::to_lowercase` applies.
pub uninterp spec fn lowercase(s: Seq<char>) -> Seq<char>;

/// Whether every character is ASCII.
pub open spec fn all_ascii(s: Seq<char>) -> bool {
    forall|i: int| 0 <= i < s.len() ==> (#[trigger] s[i] as int) < 128
}

/// ASCII lowercasing of one character.
pub open spec fn ascii_lower_char(c: char) -> char {
    if 'A' <= c && c <= 'Z' {
        (c as int + 32) as char
    } else {
        c
    }
}

/// ASCII lowercasing of a text.
pub open spec fn ascii_lower(s: Seq<char>) -> Seq<char> {
    s.map_values(|c: char| ascii_lower_char(c))
}

/// The lowercase form of a text: ASCII case folding on ASCII text.
pub open spec fn lower_of(s: Seq<char>) -> Seq<char> {
    if all_ascii(s) {
        ascii_lower(s)
    } else {
        lowercase(s)
    }
}

/// `str::to_lowercase`: the lowercase equivalent of a string slice. Its result
/// is named by [`lowercase`]; on ASCII text it only maps `A`..`Z` to `a`..`z`.
#[verifier::external_body]
fn to_lowercase(s: &str) -> (r: String)
    ensures
        r@ == lowercase(s@),
        all_ascii(s@) ==> r@ == ascii_lower(s@),
{
    s.to_lowercase()
}

/// Priority levels for plugins.
#[derive(Debug, Clone, Copy, PartialEq, Eq, PartialOrd, Ord, Structural)]
pub enum PluginPriority {
    /// Reserved for kernel (0-10)
    Kernel(u8),
    /// Critical core functionality (11-50)
    CoreCritical(u8),
    /// Standard core functionality (51-100)
    Core(u8),
    /// High-priority third-party (101-150)
    ThirdPartyHigh(u8),
    /// Standard third-party (151-200)
    ThirdParty(u8),
    /// Low-priority third-party (201-255)
    ThirdPartyLow(u8),
}

impl PluginPriority {
    /// The numeric value carried by the priority.
    pub open spec fn spec_value(self) -> u8 {
        match self {
            PluginPriority::Kernel(v) => v,
            PluginPriority::CoreCritical(v) => v,
            PluginPriority::Core(v) => v,
            PluginPriority::ThirdPartyHigh(v) => v,
            PluginPriority::ThirdParty(v) => v,
            PluginPriority::ThirdPartyLow(v) => v,
        }
    }

    /// Position of the category, from the kernel (0) to low-priority third party (5).
    pub open spec fn rank(self) -> nat {
        match self {
            PluginPriority::Kernel(_) => 0,
            PluginPriority::CoreCritical(_) => 1,
            PluginPriority::Core(_) => 2,
            PluginPriority::ThirdPartyHigh(_) => 3,
            PluginPriority::ThirdParty(_) => 4,
            PluginPriority::ThirdPartyLow(_) => 5,
        }
    }

    /// The category's name in the text form.
    pub open spec fn category_name(self) -> Seq<char> {
        match self {
            PluginPriority::Kernel(_) => "kernel"@,
            PluginPriority::CoreCritical(_) => "core_critical"@,
            PluginPriority::Core(_) => "core"@,
            PluginPriority::ThirdPartyHigh(_) => "third_party_high"@,
            PluginPriority::ThirdParty(_) => "third_party"@,
            PluginPriority::ThirdPartyLow(_) => "third_party_low"@,
        }
    }

    /// Whether the value lies in the range of its category.
    pub open spec fn in_range(self) -> bool {
        match self {
            PluginPriority::Kernel(v) => v <= 10,
            PluginPriority::CoreCritical(v) => 11 <= v <= 50,
            PluginPriority::Core(v) => 51 <= v <= 100,
            PluginPriority::ThirdPartyHigh(v) => 101 <= v <= 150,
            PluginPriority::ThirdParty(v) => 151 <= v <= 200,
            PluginPriority::ThirdPartyLow(v) => 201 <= v,
        }
    }

    /// The text form `category:value`.
    pub open spec fn spec_text(self) -> Seq<char> {
        self.category_name() + seq![':'] + decimal(self.spec_value() as nat)
    }

    /// Three-way order: by category first, then by value (lower is first).
    pub open spec fn order(self, other: Self) -> int {
        if self.rank() < other.rank() {
            -1
        } else if self.rank() > other.rank() {
            1
        } else if self.spec_value() < other.spec_value() {
            -1
        } else if self.spec_value() > other.spec_value() {
            1
        } else {
            0
        }
    }

    /// Get the numeric value of the priority.
    pub fn value(&self) -> (r: u8)
        ensures
            r == self.spec_value(),
    {
        match self {
            PluginPriority::Kernel(val) => *val,
            PluginPriority::CoreCritical(val) => *val,
            PluginPriority::Core(val) => *val,
            PluginPriority::ThirdPartyHigh(val) => *val,
            PluginPriority::ThirdParty(val) => *val,
            PluginPriority::ThirdPartyLow(val) => *val,
        }
    }

    /// Position of the category (0 for the kernel up to 5 for low-priority third party).
    pub fn category_rank(&self) -> (r: u8)
        ensures
            r as nat == self.rank(),
    {
        match self {
            PluginPriority::Kernel(_) => 0,
            PluginPriority::CoreCritical(_) => 1,
            PluginPriority::Core(_) => 2,
            PluginPriority::ThirdPartyHigh(_) => 3,
            PluginPriority::ThirdParty(_) => 4,
            PluginPriority::ThirdPartyLow(_) => 5,
        }
    }

    /// Three-way comparison: -1 if `self` comes first, 1 if `other` does, 0 if equal.
    pub fn compare(&self, other: &Self) -> (r: i8)
        ensures
            r as int == self.order(*other),
    {
        let a = self.category_rank();
        let b = other.category_rank();
        if a < b {
            -1
        } else if a > b {
            1
        } else {
            let x = self.value();
            let y = other.value();
            if x < y {
                -1
            } else if x > y {
                1
            } else {
                0
            }
        }
    }

    /// Parse a priority string like "core:80".
    pub fn from_str(priority_str: &str) -> (r: Option<Self>)
        ensures
            r == priority_from_text(priority_str@),
    {
        let cs = str_chars(priority_str);
        let parts = split_chars(&cs, ':');
        if parts.len() != 2 {
            return None;
        }
        let value: u8 = match parse_unsigned_chars(&parts[1], 255) {
            Ok(val) => val as u8,
            Err(_) => return None,
        };
        let cat = string_from_chars(&parts[0]);
        let lower = to_lowercase(cat.as_str());
        if lower == String::from_str("kernel") {
            if value > 10 {
                return None;
            }
            Some(PluginPriority::Kernel(value))
        } else if lower == String::from_str("core_critical") || lower == String::from_str("corecritical") {
            if value < 11 || value > 50 {
                return None;
            }
            Some(PluginPriority::CoreCritical(value))
        } else if lower == String::from_str("core") {
            if value < 51 || value > 100 {
                return None;
            }
            Some(PluginPriority::Core(value))
        } else if lower == String::from_str("third_party_high") || lower == String::from_str("thirdpartyhigh") {
            if value < 101 || value > 150 {
                return None;
            }
            Some(PluginPriority::ThirdPartyHigh(value))
        } else if lower == String::from_str("third_party") || lower == String::from_str("thirdparty") {
            if value < 151 || value > 200 {
                return None;
            }
            Some(PluginPriority::ThirdParty(value))
        } else if lower == String::from_str("third_party_low") || lower == String::from_str("thirdpartylow") {
            if value < 201 {
                return None;
            }
            Some(PluginPriority::ThirdPartyLow(value))
        } else {
            None
        }
    }

    /// The text form, e.g. "core:80" (what `Display` writes).
    pub fn to_string(&self) -> (r: String)
        ensures
            r@ == self.spec_text(),
    {
        let mut s = match self {
            PluginPriority::Kernel(_) => String::from_str("kernel"),
            PluginPriority::CoreCritical(_) => String::from_str("core_critical"),
            PluginPriority::Core(_) => String::from_str("core"),
            PluginPriority::ThirdPartyHigh(_) => String::from_str("third_party_high"),
            PluginPriority::ThirdParty(_) => String::from_str("third_party"),
            PluginPriority::ThirdPartyLow(_) => String::from_str("third_party_low"),
        };
        push_char(&mut s, ':');
        push_decimal(&mut s, self.value() as u64);
        s
    }
}

/// The priority named by a (lowercased) category and a value, if the value
/// lies in that category's range.
pub open spec fn priority_of_category(cat: Seq<char>, v: u8) -> Option<PluginPriority> {
    if cat == "kernel"@ {
        if v > 10 { None } else { Some(PluginPriority::Kernel(v)) }
    } else if cat == "core_critical"@ || cat == "corecritical"@ {
        if v < 11 || v > 50 { None } else { Some(PluginPriority::CoreCritical(v)) }
    } else if cat == "core"@ {
        if v < 51 || v > 100 { None } else { Some(PluginPriority::Core(v)) }
    } else if cat == "third_party_high"@ || cat == "thirdpartyhigh"@ {
        if v < 101 || v > 150 { None } else { Some(PluginPriority::ThirdPartyHigh(v)) }
    } else if cat == "third_party"@ || cat == "thirdparty"@ {
        if v < 151 || v > 200 { None } else { Some(PluginPriority::ThirdParty(v)) }
    } else if cat == "third_party_low"@ || cat == "thirdpartylow"@ {
        if v < 201 { None } else { Some(PluginPriority::ThirdPartyLow(v)) }
    } else {
        None
    }
}

/// Reading a priority from text: exactly one `:`, a `u8` after it, and a known
/// category name (in any letter case) before it whose range holds the value.
pub open spec fn priority_from_text(s: Seq<char>) -> Option<PluginPriority> {
    let parts = split_char(s, ':');
    if parts.len() != 2 {
        None
    } else {
        match parse_unsigned(parts[1], 255) {
            Err(_) => None,
            Ok(v) => priority_of_category(lower_of(parts[0]), v as u8),
        }
    }
}

/// Law: a priority whose value lies in its category's range reads back from its text.
pub proof fn lemma_priority_text_roundtrip(p: PluginPriority)
    requires
        p.in_range(),
    ensures
        priority_from_text(p.spec_text()) == Some(p),
{
    reveal_strlit("kernel");
    reveal_strlit("core_critical");
    reveal_strlit("corecritical");
    reveal_strlit("core");
    reveal_strlit("third_party_high");
    reveal_strlit("thirdpartyhigh");
    reveal_strlit("third_party");
    reveal_strlit("thirdparty");
    reveal_strlit("third_party_low");
    reveal_strlit("thirdpartylow");
    let name = p.category_name();
    let d = decimal(p.spec_value() as nat);
    assert(!name.contains(':'));
    lemma_decimal_lacks(p.spec_value() as nat, ':');
    lemma_split_without_sep(name, ':');
    lemma_split_append(name, d, ':');
    assert(split_char(p.spec_text(), ':') =~= seq![name, d]);
    lemma_parse_decimal(p.spec_value() as nat, 255);
    assert(all_ascii(name));
    assert(ascii_lower(name) =~= name);
}

/// Law: the priority order is a total order (antisymmetric, transitive, and
/// zero exactly on equal priorities).
pub proof fn lemma_priority_order_total(a: PluginPriority, b: PluginPriority, c: PluginPriority)
    ensures
        a.order(b) == -b.order(a),
        a.order(b) == 0 <==> a == b,
        a.order(b) <= 0 && b.order(c) <= 0 ==> a.order(c) <= 0,
        a.order(b) < 0 && b.order(c) < 0 ==> a.order(c) < 0,
{
}

/// FFI-safe representation of a priority.
#[derive(Debug, Clone, Copy, PartialEq, Eq)]
pub struct FfiPluginPriority {
    /// Category: 0: Kernel, 1: CoreCritical, 2: Core, 3: ThirdPartyHigh, 4: ThirdParty, 5: ThirdPartyLow
    pub category: u8,
    /// Value within the category.
    pub value: u8,
}

/// A value clamped into `[lo, hi]`.
pub open spec fn clamp(v: u8, lo: u8, hi: u8) -> u8 {
    if v < lo { lo } else if v > hi { hi } else { v }
}

impl FfiPluginPriority {
    /// The priority an FFI priority stands for, with its value clamped into the category's range.
    pub open spec fn spec_priority(self) -> Option<PluginPriority> {
        match self.category {
            0 => Some(PluginPriority::Kernel(clamp(self.value, 0, 10))),
            1 => Some(PluginPriority::CoreCritical(clamp(self.value, 11, 50))),
            2 => Some(PluginPriority::Core(clamp(self.value, 51, 100))),
            3 => Some(PluginPriority::ThirdPartyHigh(clamp(self.value, 101, 150))),
            4 => Some(PluginPriority::ThirdParty(clamp(self.value, 151, 200))),
            5 => Some(PluginPriority::ThirdPartyLow(clamp(self.value, 201, 255))),
            _ => None,
        }
    }

    /// Converts the FFI priority to a [`PluginPriority`], clamping the value
    /// into the category's range; `None` for an unknown category.
    pub fn to_plugin_priority(&self) -> (r: Option<PluginPriority>)
        ensures
            r == self.spec_priority(),
            r matches Some(p) ==> p.in_range(),
            r is Some <==> self.category <= 5,
    {
        let v = self.value;
        match self.category {
            0 => Some(PluginPriority::Kernel(if v > 10 { 10 } else { v })),
            1 => Some(PluginPriority::CoreCritical(if v < 11 { 11 } else if v > 50 { 50 } else { v })),
            2 => Some(PluginPriority::Core(if v < 51 { 51 } else if v > 100 { 100 } else { v })),
            3 => Some(PluginPriority::ThirdPartyHigh(if v < 101 { 101 } else if v > 150 { 150 } else { v })),
            4 => Some(PluginPriority::ThirdParty(if v < 151 { 151 } else if v > 200 { 200 } else { v })),
            5 => Some(PluginPriority::ThirdPartyLow(if v < 201 { 201 } else { v })),
            _ => None,
        }
    }
}

/// The result of an FFI call.
#[derive(Debug, Clone, Copy, PartialEq, Eq)]
pub enum FfiResult {
    /// Operation was successful.
    Success,
    /// A general error occurred.
    Failure,
    /// A null pointer was encountered unexpectedly.
    NullPointer,
    /// Failed to decode UTF-8 string.
    Utf8Error,
    /// Invalid data format or value.
    InvalidData,
}

} // verus!
