//! The command line's option values: how they are spelled, and how their
//! spellings are read back.

use vstd::prelude::*;

verus! {

/// `c` with ASCII upper-case letters turned to lower case.
pub open spec fn ascii_lower_char(c: char) -> char {
    if 'A' <= c && c <= 'Z' {
        ((c as int) + 32) as char
    } else {
        c
    }
}

/// `s` with ASCII upper-case letters turned to lower case, as
/// `str::to_ascii_lowercase` gives it.
pub open spec fn ascii_lower(s: Seq<char>) -> Seq<char> {
    Seq::new(s.len(), |i: int| ascii_lower_char(s[i]))
}

/// Whether `s`, with ASCII letters lower-cased, is `lower`.
pub fn ascii_lower_eq(s: &str, lower: &str) -> (r: bool)
    ensures
        r == (ascii_lower(s@) =~= lower@),
{
    let n = s.unicode_len();
    let m = lower.unicode_len();
    if n != m {
        return false;
    }
    let mut i: usize = 0;
    while i < n
        invariant
            n == s@.len(),
            m == lower@.len(),
            n == m,
            0 <= i <= n,
            forall|j: int| 0 <= j < i ==> ascii_lower_char(s@[j]) == lower@[j],
        decreases n - i,
    {
        let c = s.get_char(i);
        let t = lower.get_char(i);
        let same = if 'A' <= c && c <= 'Z' {
            (c as u32) + 32 == (t as u32)
        } else {
            c == t
        };
        if !same {
            assert(ascii_lower_char(s@[i as int]) != lower@[i as int]);
            assert(ascii_lower(s@)[i as int] != lower@[i as int]);
            return false;
        }
        i = i + 1;
    }
    assert(ascii_lower(s@) =~= lower@);
    true
}

/// How a content hash is printed.
#[derive(Debug, Clone, Copy, PartialEq, Eq, Structural)]
pub enum Format {
    /// Lower-case hexadecimal.
    Hex,
    /// A content identifier (the hash's display form).
    Cid,
}

/// The spelling of a hash format.
pub open spec fn format_text(f: Format) -> Seq<char> {
    match f {
        Format::Hex => "hex"@,
        Format::Cid => "cid"@,
    }
}

/// The format a spelling names, ASCII case ignored.
pub open spec fn format_from_text(s: Seq<char>) -> Option<Format> {
    if ascii_lower(s) =~= "hex"@ {
        Some(Format::Hex)
    } else if ascii_lower(s) =~= "cid"@ {
        Some(Format::Cid)
    } else {
        None
    }
}

/// A spelling that names no hash format.
#[derive(Debug)]
pub struct InvalidFormat;

impl InvalidFormat {
    /// The error's message.
    pub fn message(&self) -> (r: String)
        ensures
            r@ == "invalid format"@,
    {
        "invalid format".to_owned()
    }
}

impl Format {
    /// The default format: hexadecimal.
    pub fn default_format() -> (f: Format)
        ensures
            f == Format::Hex,
    {
        Format::Hex
    }

    /// Reads a format from its spelling, ignoring ASCII case.
    pub fn parse(s: &str) -> (r: Result<Format, InvalidFormat>)
        ensures
            match format_from_text(s@) {
                Some(f) => r == Ok::<Format, InvalidFormat>(f),
                None => r is Err,
            },
    {
        if ascii_lower_eq(s, "hex") {
            Ok(Format::Hex)
        } else if ascii_lower_eq(s, "cid") {
            Ok(Format::Cid)
        } else {
            Err(InvalidFormat)
        }
    }

    /// The format's spelling.
    pub fn text(&self) -> (r: &'static str)
        ensures
            r@ == format_text(*self),
    {
        match self {
            Format::Hex => "hex",
            Format::Cid => "cid",
        }
    }
}

/// What a ticket carries of the sender's address.
#[derive(Debug, Clone, Copy, PartialEq, Eq, Structural)]
pub enum AddrInfoOptions {
    /// Only the endpoint id; addresses are looked up.
    Id,
    /// The endpoint id, the relay URL and the direct addresses.
    RelayAndAddresses,
    /// The endpoint id and the relay URL.
    Relay,
    /// The endpoint id and the direct addresses.
    Addresses,
}

/// The spelling of a ticket kind: the variant's name.
pub open spec fn addr_info_text(o: AddrInfoOptions) -> Seq<char> {
    match o {
        AddrInfoOptions::Id => "Id"@,
        AddrInfoOptions::RelayAndAddresses => "RelayAndAddresses"@,
        AddrInfoOptions::Relay => "Relay"@,
        AddrInfoOptions::Addresses => "Addresses"@,
    }
}

/// The ticket kind a spelling names: the variant's name, case ignored.
pub open spec fn addr_info_from_text(s: Seq<char>) -> Option<AddrInfoOptions> {
    if ascii_lower(s) =~= "id"@ {
        Some(AddrInfoOptions::Id)
    } else if ascii_lower(s) =~= "relayandaddresses"@ {
        Some(AddrInfoOptions::RelayAndAddresses)
    } else if ascii_lower(s) =~= "relay"@ {
        Some(AddrInfoOptions::Relay)
    } else if ascii_lower(s) =~= "addresses"@ {
        Some(AddrInfoOptions::Addresses)
    } else {
        None
    }
}

/// A spelling that names no ticket kind.
#[derive(Debug)]
pub struct InvalidAddrInfoOptions;

impl InvalidAddrInfoOptions {
    /// The error's message.
    pub fn message(&self) -> (r: String)
        ensures
            r@ == "Invalid `AddrInfoOptions` string representation"@,
    {
        "Invalid `AddrInfoOptions` string representation".to_owned()
    }
}

impl AddrInfoOptions {
    /// The default ticket kind: the endpoint id only.
    pub fn default_options() -> (o: AddrInfoOptions)
        ensures
            o == AddrInfoOptions::Id,
    {
        AddrInfoOptions::Id
    }

    /// Reads a ticket kind from a variant's name, ignoring case. (The
    /// names are plain ASCII letters without `k`, so ignoring ASCII case is
    /// ignoring case: no other character lower-cases to one of their
    /// letters alone.)
    pub fn parse(s: &str) -> (r: Result<AddrInfoOptions, InvalidAddrInfoOptions>)
        ensures
            match addr_info_from_text(s@) {
                Some(o) => r == Ok::<AddrInfoOptions, InvalidAddrInfoOptions>(o),
                None => r is Err,
            },
    {
        if ascii_lower_eq(s, "id") {
            Ok(AddrInfoOptions::Id)
        } else if ascii_lower_eq(s, "relayandaddresses") {
            Ok(AddrInfoOptions::RelayAndAddresses)
        } else if ascii_lower_eq(s, "relay") {
            Ok(AddrInfoOptions::Relay)
        } else if ascii_lower_eq(s, "addresses") {
            Ok(AddrInfoOptions::Addresses)
        } else {
            Err(InvalidAddrInfoOptions)
        }
    }

    /// The ticket kind's spelling: its variant's name.
    pub fn text(&self) -> (r: &'static str)
        ensures
            r@ == addr_info_text(*self),
    {
        match self {
            AddrInfoOptions::Id => "Id",
            AddrInfoOptions::RelayAndAddresses => "RelayAndAddresses",
            AddrInfoOptions::Relay => "Relay",
            AddrInfoOptions::Addresses => "Addresses",
        }
    }
}

/// Which relay servers the endpoint uses.
#[derive(Debug, Clone, Copy, PartialEq, Eq, Structural)]
pub enum RelayChoice {
    /// No relay servers.
    Disabled,
    /// The default relay servers.
    Default,
    /// A single relay server, given by the option's text as a URL.
    Custom,
}

/// The relay choice a spelling names: `disabled`, `default`, and anything
/// else a custom relay URL.
pub open spec fn relay_choice_from_text(s: Seq<char>) -> RelayChoice {
    if s =~= "disabled"@ {
        RelayChoice::Disabled
    } else if s =~= "default"@ {
        RelayChoice::Default
    } else {
        RelayChoice::Custom
    }
}

/// Whether `a` and `b` hold the same text.
pub fn str_eq(a: &str, b: &str) -> (r: bool)
    ensures
        r == (a@ =~= b@),
{
    let n = a.unicode_len();
    if n != b.unicode_len() {
        return false;
    }
    let mut i: usize = 0;
    while i < n
        invariant
            n == a@.len(),
            n == b@.len(),
            0 <= i <= n,
            forall|j: int| 0 <= j < i ==> a@[j] == b@[j],
        decreases n - i,
    {
        if a.get_char(i) != b.get_char(i) {
            return false;
        }
        i = i + 1;
    }
    true
}

impl RelayChoice {
    /// Reads a relay option: `disabled`, `default`, or (anything else) a
    /// custom relay URL, which the caller parses as a URL.
    pub fn parse(s: &str) -> (r: RelayChoice)
        ensures
            r == relay_choice_from_text(s@),
    {
        if str_eq(s, "disabled") {
            RelayChoice::Disabled
        } else if str_eq(s, "default") {
            RelayChoice::Default
        } else {
            RelayChoice::Custom
        }
    }

    /// Whether the sender waits for its endpoint to come online (at a
    /// relay) before it announces the ticket: unless relays are disabled.
    pub fn waits_until_online(&self) -> (r: bool)
        ensures
            r == (*self != RelayChoice::Disabled),
    {
        match self {
            RelayChoice::Disabled => false,
            _ => true,
        }
    }
}

/// Law: the spelling of a hash format reads back as that format.
pub proof fn law_format_text_roundtrip(f: Format)
    ensures
        format_from_text(format_text(f)) == Some(f),
{
    reveal_strlit("hex");
    reveal_strlit("cid");
    assert(ascii_lower("hex"@) =~= "hex"@);
    assert(ascii_lower("cid"@) =~= "cid"@);
    assert(ascii_lower("cid"@)[0] == 'c');
    assert("hex"@[0] == 'h');
    assert(!(ascii_lower("cid"@) =~= "hex"@));
}

/// Law: a ticket kind's name reads back as that kind (the command line's
/// default value is printed by name and read back).
pub proof fn law_addr_info_text_roundtrip(o: AddrInfoOptions)
    ensures
        addr_info_from_text(addr_info_text(o)) == Some(o),
{
    reveal_strlit("Id");
    reveal_strlit("id");
    reveal_strlit("RelayAndAddresses");
    reveal_strlit("relayandaddresses");
    reveal_strlit("Relay");
    reveal_strlit("relay");
    reveal_strlit("Addresses");
    reveal_strlit("addresses");
    assert(ascii_lower("Id"@) =~= "id"@);
    assert(ascii_lower("RelayAndAddresses"@) =~= "relayandaddresses"@);
    assert(ascii_lower("Relay"@) =~= "relay"@);
    assert(ascii_lower("Addresses"@) =~= "addresses"@);
    assert(!(ascii_lower("RelayAndAddresses"@) =~= "id"@));
    assert(!(ascii_lower("Relay"@) =~= "id"@));
    assert(!(ascii_lower("Relay"@) =~= "relayandaddresses"@));
    assert(!(ascii_lower("Addresses"@) =~= "id"@));
    assert(!(ascii_lower("Addresses"@) =~= "relayandaddresses"@));
    assert(!(ascii_lower("Addresses"@) =~= "relay"@));
}

/// Law: the spellings `disabled` and `default` read back as themselves.
pub proof fn law_relay_choice_names()
    ensures
        relay_choice_from_text("disabled"@) == RelayChoice::Disabled,
        relay_choice_from_text("default"@) == RelayChoice::Default,
{
    reveal_strlit("disabled");
    reveal_strlit("default");
    assert(!("default"@ =~= "disabled"@));
}

/// Lower-casing twice is lower-casing once.
proof fn lemma_ascii_lower_idempotent(s: Seq<char>)
    ensures
        ascii_lower(ascii_lower(s)) =~= ascii_lower(s),
{
    assert forall|i: int| 0 <= i < s.len() implies ascii_lower_char(ascii_lower_char(s[i]))
        == ascii_lower_char(s[i]) by {
        let c = s[i];
        if 'A' <= c && c <= 'Z' {
            assert('a' <= ascii_lower_char(c) && ascii_lower_char(c) <= 'z');
        }
    }
}

/// Law: reading a hash format ignores ASCII case: a spelling names the same
/// format as its lower-cased form.
pub proof fn law_format_ignores_case(s: Seq<char>)
    ensures
        format_from_text(s) == format_from_text(ascii_lower(s)),
{
    lemma_ascii_lower_idempotent(s);
}

/// Law: a format's own spelling is lower case, and every spelling that
/// lower-cases to it (`cid`, `CID`, `Cid`, ...) reads back as that format.
pub proof fn law_format_spelling_any_case(f: Format, s: Seq<char>)
    ensures
        ascii_lower(format_text(f)) == format_text(f),
        ascii_lower(s) == format_text(f) ==> format_from_text(s) == Some(f),
{
    reveal_strlit("hex");
    reveal_strlit("cid");
    assert(ascii_lower("hex"@) =~= "hex"@);
    assert(ascii_lower("cid"@) =~= "cid"@);
    assert("cid"@[0] == 'c');
    assert("hex"@[0] == 'h');
    assert(!("cid"@ =~= "hex"@));
}

/// Law: reading a ticket kind ignores ASCII case.
pub proof fn law_addr_info_ignores_case(s: Seq<char>)
    ensures
        addr_info_from_text(s) == addr_info_from_text(ascii_lower(s)),
{
    lemma_ascii_lower_idempotent(s);
}

} // verus!
