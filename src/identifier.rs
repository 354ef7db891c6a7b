//! Validated identifiers for packages, services and presets.
use vstd::prelude::*;
use vstd::utf8::encode_utf8;

verus! {

/// An ASCII letter.
pub open spec fn is_letter(b: u8) -> bool {
    (0x41 <= b && b <= 0x5a) || (0x61 <= b && b <= 0x7a)
}

/// A byte that may follow the first one: a letter, a digit, `_` or `-`.
pub open spec fn is_ident_byte(b: u8) -> bool {
    is_letter(b) || (0x30 <= b && b <= 0x39) || b == 0x5f || b == 0x2d
}

/// The bytes form a valid identifier: non-empty, a letter first, and every
/// byte a letter, a digit, `_` or `-`.
pub open spec fn valid_ident_bytes(b: Seq<u8>) -> bool {
    &&& b.len() > 0
    &&& is_letter(b[0])
    &&& forall|i: int| 0 <= i < b.len() ==> #[trigger] is_ident_byte(b[i])
}

/// The first rule that the bytes break, if any.
pub open spec fn ident_error(b: Seq<u8>) -> Option<InvalidConfigIdent> {
    if b.len() == 0 {
        Some(InvalidConfigIdent::Empty)
    } else if !is_letter(b[0]) {
        Some(InvalidConfigIdent::StartsWithNonLetter)
    } else if exists|i: int| 0 <= i < b.len() && !#[trigger] is_ident_byte(b[i]) {
        Some(InvalidConfigIdent::ContainsInvalidCharacters)
    } else {
        None
    }
}

/// A string is a valid identifier.
pub open spec fn valid_ident(s: Seq<char>) -> bool {
    valid_ident_bytes(encode_utf8(s))
}

/// Errors that can occur when creating a `ConfigIdent`.
#[derive(Clone, Copy, Debug, PartialEq, Eq, Structural)]
pub enum InvalidConfigIdent {
    Empty,
    NonAsciiPrintable,
    StartsWithNonLetter,
    ContainsInvalidCharacters,
}

impl InvalidConfigIdent {
    pub open spec fn message(&self) -> Seq<char> {
        match self {
            InvalidConfigIdent::Empty => "config identifier must be non-empty"@,
            InvalidConfigIdent::NonAsciiPrintable => "config identifier must be ASCII printable"@,
            InvalidConfigIdent::StartsWithNonLetter => "config identifier must start with a letter"@,
            InvalidConfigIdent::ContainsInvalidCharacters =>
                "config identifier must contain only letters, numbers, underscores, and hyphens"@,
        }
    }

    /// The message that describes the error.
    pub fn as_static_str(&self) -> (r: &'static str)
        ensures
            r@ == self.message(),
    {
        match self {
            InvalidConfigIdent::Empty => "config identifier must be non-empty",
            InvalidConfigIdent::NonAsciiPrintable => "config identifier must be ASCII printable",
            InvalidConfigIdent::StartsWithNonLetter => "config identifier must start with a letter",
            InvalidConfigIdent::ContainsInvalidCharacters =>
                "config identifier must contain only letters, numbers, underscores, and hyphens",
        }
    }
}

fn is_letter_byte(b: u8) -> (r: bool)
    ensures
        r == is_letter(b),
{
    (0x41 <= b && b <= 0x5a) || (0x61 <= b && b <= 0x7a)
}

fn is_ident_byte_exec(b: u8) -> (r: bool)
    ensures
        r == is_ident_byte(b),
{
    is_letter_byte(b) || (0x30 <= b && b <= 0x39) || b == 0x5f || b == 0x2d
}

/// A validated identifier: non-empty, starting with an ASCII letter, and
/// holding only ASCII letters, digits, underscores and hyphens.
#[derive(Clone, Debug, PartialEq, Eq, PartialOrd, Ord, Hash)]
pub struct ConfigIdent {
    name: String,
}

impl View for ConfigIdent {
    type V = Seq<char>;

    closed spec fn view(&self) -> Seq<char> {
        self.name@
    }
}

impl ConfigIdent {
    pub closed spec fn wf(&self) -> bool {
        valid_ident(self.name@)
    }

    /// Checks the identifier rules on `id`.
    fn validate(id: &str) -> (r: Result<(), InvalidConfigIdent>)
        ensures
            r is Ok <==> ident_error(encode_utf8(id@)) is None,
            r is Err ==> ident_error(encode_utf8(id@)) == Some(r->Err_0),
            ident_error(encode_utf8(id@)) is None <==> valid_ident(id@),
    {
        let bytes = id.as_bytes();
        proof {
            assert(bytes@ == encode_utf8(id@));
        }
        if bytes.len() == 0 {
            return Err(InvalidConfigIdent::Empty);
        }
        if !is_letter_byte(bytes[0]) {
            return Err(InvalidConfigIdent::StartsWithNonLetter);
        }
        let mut i: usize = 1;
        while i < bytes.len()
            invariant
                1 <= i <= bytes@.len(),
                bytes@ == encode_utf8(id@),
                is_letter(bytes@[0]),
                forall|j: int| 0 <= j < i ==> #[trigger] is_ident_byte(bytes@[j]),
            decreases bytes@.len() - i,
        {
            if !is_ident_byte_exec(bytes[i]) {
                assert(!is_ident_byte(bytes@[i as int]));
                return Err(InvalidConfigIdent::ContainsInvalidCharacters);
            }
            i = i + 1;
        }
        Ok(())
    }

    /// Creates a new config identifier at runtime.
    pub fn new(s: &str) -> (r: Result<ConfigIdent, InvalidConfigIdent>)
        ensures
            r is Ok <==> valid_ident(s@),
            r is Ok ==> r->Ok_0@ == s@ && r->Ok_0.wf(),
            r is Err ==> ident_error(encode_utf8(s@)) == Some(r->Err_0),
    {
        match Self::validate(s) {
            Ok(()) => Ok(ConfigIdent { name: s.to_owned() }),
            Err(e) => Err(e),
        }
    }

    /// Creates a new config identifier from a static string.
    pub fn new_static(s: &'static str) -> (r: Result<ConfigIdent, InvalidConfigIdent>)
        ensures
            r is Ok <==> valid_ident(s@),
            r is Ok ==> r->Ok_0@ == s@ && r->Ok_0.wf(),
            r is Err ==> ident_error(encode_utf8(s@)) == Some(r->Err_0),
    {
        Self::new(s)
    }

    /// Creates a new config identifier from a string known to be valid.
    pub fn new_const(s: &'static str) -> (r: ConfigIdent)
        requires
            valid_ident(s@),
        ensures
            r@ == s@,
            r.wf(),
    {
        ConfigIdent { name: s.to_owned() }
    }

    /// Returns the identifier as a string.
    pub fn as_str(&self) -> (r: &str)
        ensures
            r@ == self@,
    {
        self.name.as_str()
    }

    /// Every well-formed identifier holds to the identifier rules: it is
    /// non-empty, its first byte is an ASCII letter, and every byte is an
    /// ASCII letter, digit, underscore or hyphen.
    pub proof fn lemma_wf_valid(&self)
        requires
            self.wf(),
        ensures
            valid_ident_bytes(encode_utf8(self@)),
    {
    }
}

} // verus!

verus! {

/// The name of a package.
#[derive(Clone, Debug, PartialEq, Eq, PartialOrd, Ord, Hash)]
pub struct PackageName(pub ConfigIdent);

/// The name of a service.
#[derive(Clone, Debug, PartialEq, Eq, PartialOrd, Ord, Hash)]
pub struct ServiceName(pub ConfigIdent);

/// The name of a target preset.
#[derive(Clone, Debug, PartialEq, Eq, PartialOrd, Ord, Hash)]
pub struct PresetName(pub ConfigIdent);

impl View for PackageName {
    type V = Seq<char>;

    open spec fn view(&self) -> Seq<char> {
        self.0@
    }
}

impl View for ServiceName {
    type V = Seq<char>;

    open spec fn view(&self) -> Seq<char> {
        self.0@
    }
}

impl View for PresetName {
    type V = Seq<char>;

    open spec fn view(&self) -> Seq<char> {
        self.0@
    }
}

impl PackageName {
    pub open spec fn wf(&self) -> bool {
        self.0.wf()
    }

    /// Creates a new package name at runtime.
    pub fn new(s: &str) -> (r: Result<PackageName, InvalidConfigIdent>)
        ensures
            r is Ok <==> valid_ident(s@),
            r is Ok ==> r->Ok_0@ == s@ && r->Ok_0.wf(),
            r is Err ==> ident_error(encode_utf8(s@)) == Some(r->Err_0),
    {
        match ConfigIdent::new(s) {
            Ok(id) => Ok(PackageName(id)),
            Err(e) => Err(e),
        }
    }

    /// Creates a new package name from a static string.
    pub fn new_static(s: &'static str) -> (r: Result<PackageName, InvalidConfigIdent>)
        ensures
            r is Ok <==> valid_ident(s@),
            r is Ok ==> r->Ok_0@ == s@ && r->Ok_0.wf(),
            r is Err ==> ident_error(encode_utf8(s@)) == Some(r->Err_0),
    {
        Self::new(s)
    }

    /// Creates a new package name from a string known to be valid.
    pub fn new_const(s: &'static str) -> (r: PackageName)
        requires
            valid_ident(s@),
        ensures
            r@ == s@,
            r.wf(),
    {
        PackageName(ConfigIdent::new_const(s))
    }

    /// Returns the name as a string.
    pub fn as_str(&self) -> (r: &str)
        ensures
            r@ == self@,
    {
        self.0.as_str()
    }
}

impl ServiceName {
    pub open spec fn wf(&self) -> bool {
        self.0.wf()
    }

    /// Creates a new service name at runtime.
    pub fn new(s: &str) -> (r: Result<ServiceName, InvalidConfigIdent>)
        ensures
            r is Ok <==> valid_ident(s@),
            r is Ok ==> r->Ok_0@ == s@ && r->Ok_0.wf(),
            r is Err ==> ident_error(encode_utf8(s@)) == Some(r->Err_0),
    {
        match ConfigIdent::new(s) {
            Ok(id) => Ok(ServiceName(id)),
            Err(e) => Err(e),
        }
    }

    /// Creates a new service name from a static string.
    pub fn new_static(s: &'static str) -> (r: Result<ServiceName, InvalidConfigIdent>)
        ensures
            r is Ok <==> valid_ident(s@),
            r is Ok ==> r->Ok_0@ == s@ && r->Ok_0.wf(),
            r is Err ==> ident_error(encode_utf8(s@)) == Some(r->Err_0),
    {
        Self::new(s)
    }

    /// Creates a new service name from a string known to be valid.
    pub fn new_const(s: &'static str) -> (r: ServiceName)
        requires
            valid_ident(s@),
        ensures
            r@ == s@,
            r.wf(),
    {
        ServiceName(ConfigIdent::new_const(s))
    }

    /// Returns the name as a string.
    pub fn as_str(&self) -> (r: &str)
        ensures
            r@ == self@,
    {
        self.0.as_str()
    }
}

impl PresetName {
    pub open spec fn wf(&self) -> bool {
        self.0.wf()
    }

    /// Creates a new preset name at runtime.
    pub fn new(s: &str) -> (r: Result<PresetName, InvalidConfigIdent>)
        ensures
            r is Ok <==> valid_ident(s@),
            r is Ok ==> r->Ok_0@ == s@ && r->Ok_0.wf(),
            r is Err ==> ident_error(encode_utf8(s@)) == Some(r->Err_0),
    {
        match ConfigIdent::new(s) {
            Ok(id) => Ok(PresetName(id)),
            Err(e) => Err(e),
        }
    }

    /// Creates a new preset name from a static string.
    pub fn new_static(s: &'static str) -> (r: Result<PresetName, InvalidConfigIdent>)
        ensures
            r is Ok <==> valid_ident(s@),
            r is Ok ==> r->Ok_0@ == s@ && r->Ok_0.wf(),
            r is Err ==> ident_error(encode_utf8(s@)) == Some(r->Err_0),
    {
        Self::new(s)
    }

    /// Creates a new preset name from a string known to be valid.
    pub fn new_const(s: &'static str) -> (r: PresetName)
        requires
            valid_ident(s@),
        ensures
            r@ == s@,
            r.wf(),
    {
        PresetName(ConfigIdent::new_const(s))
    }

    /// Returns the name as a string.
    pub fn as_str(&self) -> (r: &str)
        ensures
            r@ == self@,
    {
        self.0.as_str()
    }
}

} // verus!
