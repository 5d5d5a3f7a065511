//! Validation and storage of named command handlers.
use vstd::prelude::*;
use vstd::string::StringSliceAdditionalSpecFns;

use super::error::RegistryError;
use crate::protocol::command::{valid_line, valid_token, validate_line, validate_token};
use crate::protocol::wire::MAX_LINE_BYTES;
use vstd::utf8::encode_utf8;

verus! {

/// `NOP`.
pub open spec fn word_nop() -> Seq<u8> {
    seq![0x4e, 0x4f, 0x50]
}

/// `BYE`.
pub open spec fn word_bye() -> Seq<u8> {
    seq![0x42, 0x59, 0x45]
}

/// `HELP`.
pub open spec fn word_help() -> Seq<u8> {
    seq![0x48, 0x45, 0x4c, 0x50]
}

/// `RESET`.
pub open spec fn word_reset() -> Seq<u8> {
    seq![0x52, 0x45, 0x53, 0x45, 0x54]
}

/// `OPTION`.
pub open spec fn word_option() -> Seq<u8> {
    seq![0x4f, 0x50, 0x54, 0x49, 0x4f, 0x4e]
}

/// A name owned by a built-in command.
pub open spec fn reserved_name(name: Seq<u8>) -> bool {
    name == word_nop() || name == word_bye() || name == word_help() || name == word_reset()
        || name == word_option()
}

/// A name that a handler may be registered under: a valid command token that
/// fits in one command line.
pub open spec fn usable_name(name: Seq<u8>) -> bool {
    valid_token(name) && name.len() < MAX_LINE_BYTES
}

/// Compares two byte strings.
pub(crate) fn bytes_equal(a: &[u8], b: &[u8]) -> (r: bool)
    ensures
        r == (a@ == b@),
{
    if a.len() != b.len() {
        return false;
    }
    let mut i: usize = 0;
    while i < a.len()
        invariant
            a@.len() == b@.len(),
            i <= a@.len(),
            forall|j: int| 0 <= j < i ==> a@[j] == b@[j],
        decreases a@.len() - i,
    {
        if a[i] != b[i] {
            return false;
        }
        i = i + 1;
    }
    assert(a@ =~= b@);
    true
}

/// Whether `name` is owned by a built-in command.
pub(crate) fn is_reserved(name: &[u8]) -> (r: bool)
    ensures
        r == reserved_name(name@),
{
    let nop: [u8; 3] = [0x4e, 0x4f, 0x50];
    let bye: [u8; 3] = [0x42, 0x59, 0x45];
    let help: [u8; 4] = [0x48, 0x45, 0x4c, 0x50];
    let reset: [u8; 5] = [0x52, 0x45, 0x53, 0x45, 0x54];
    let option: [u8; 6] = [0x4f, 0x50, 0x54, 0x49, 0x4f, 0x4e];
    assert(nop@ =~= word_nop());
    assert(bye@ =~= word_bye());
    assert(help@ =~= word_help());
    assert(reset@ =~= word_reset());
    assert(option@ =~= word_option());
    bytes_equal(name, nop.as_slice()) || bytes_equal(name, bye.as_slice()) || bytes_equal(
        name,
        help.as_slice(),
    ) || bytes_equal(name, reset.as_slice()) || bytes_equal(name, option.as_slice())
}

/// Checks that a handler name is a usable, unreserved command name.
pub fn validate_name(name: &str) -> (r: Result<(), RegistryError>)
    ensures
        !usable_name(name.spec_bytes()) ==> r matches Err(RegistryError::InvalidName),
        usable_name(name.spec_bytes()) && reserved_name(name.spec_bytes()) ==> (r matches Err(
            RegistryError::Reserved(n),
        ) && n@ == name@),
        r is Ok <==> usable_name(name.spec_bytes()) && !reserved_name(name.spec_bytes()),
{
    let bytes = name.as_bytes();
    match validate_token(bytes) {
        Err(_) => {
            return Err(RegistryError::InvalidName);
        },
        Ok(()) => {},
    }
    if bytes.len() >= MAX_LINE_BYTES {
        return Err(RegistryError::InvalidName);
    }
    if is_reserved(bytes) {
        return Err(RegistryError::Reserved(name.to_owned()));
    }
    Ok(())
}

/// Checks that a description holds no CR, LF or NUL.
pub fn validate_description(description: &str) -> (r: Result<(), RegistryError>)
    ensures
        r is Ok <==> valid_line(description.spec_bytes()),
        r is Err ==> r matches Err(RegistryError::InvalidDescription),
{
    match validate_line(description.as_bytes()) {
        Err(_) => Err(RegistryError::InvalidDescription),
        Ok(()) => Ok(()),
    }
}

/// The bytes of a string with the given characters.
pub open spec fn string_bytes(text: Seq<char>) -> Seq<u8> {
    encode_utf8(text)
}

/// An explicit, case-sensitive collection of handlers, each under a distinct
/// name.
///
/// Registration rejects duplicates and built-in names without replacement,
/// and keeps registration order. Lookup borrows the handler.
pub struct Registry<H> {
    entries: Vec<(String, H)>,
}

/// No name occurs twice, and every name is usable and unreserved.
pub open spec fn registry_names_valid<H>(entries: Seq<(Seq<u8>, H)>) -> bool {
    &&& forall|i: int, j: int|
        0 <= i < j < entries.len() ==> #[trigger] entries[i].0 != #[trigger] entries[j].0
    &&& forall|i: int|
        0 <= i < entries.len() ==> usable_name(#[trigger] entries[i].0) && !reserved_name(
            entries[i].0,
        )
}

/// Whether a name is registered.
pub open spec fn registered<H>(entries: Seq<(Seq<u8>, H)>, name: Seq<u8>) -> bool {
    exists|i: int| 0 <= i < entries.len() && #[trigger] entries[i].0 == name
}

impl<H> View for Registry<H> {
    type V = Seq<(Seq<u8>, H)>;

    closed spec fn view(&self) -> Seq<(Seq<u8>, H)> {
        Seq::new(
            self.entries@.len(),
            |i: int| (string_bytes(self.entries@[i].0@), self.entries@[i].1),
        )
    }
}

impl<H> Registry<H> {
    #[verifier::type_invariant]
    spec fn well_formed(&self) -> bool {
        registry_names_valid(self@)
    }

    /// Creates an empty registry.
    pub fn new() -> (r: Self)
        ensures
            r@ == Seq::<(Seq<u8>, H)>::empty(),
    {
        let r = Self { entries: Vec::new() };
        assert(r@ =~= Seq::<(Seq<u8>, H)>::empty());
        r
    }

    /// The number of registered handlers.
    pub fn len(&self) -> (n: usize)
        ensures
            n == self@.len(),
    {
        self.entries.len()
    }

    /// Finds the entry registered under exactly `name`.
    fn find(&self, name: &[u8]) -> (r: Option<usize>)
        ensures
            r matches Some(i) ==> i < self@.len() && self@[i as int].0 == name@,
            r is None <==> !registered(self@, name@),
    {
        let mut i: usize = 0;
        while i < self.entries.len()
            invariant
                i <= self@.len(),
                self@.len() == self.entries@.len(),
                forall|j: int| 0 <= j < i ==> self@[j].0 != name@,
            decreases self@.len() - i,
        {
            assert(self@[i as int].0 == string_bytes(self.entries@[i as int].0@));
            if bytes_equal(self.entries[i].0.as_str().as_bytes(), name) {
                return Some(i);
            }
            i = i + 1;
        }
        None
    }

    /// Validates a name and description and registers `handler` under that
    /// name.
    ///
    /// Rejects invalid or reserved names, CR, LF or NUL in descriptions, and
    /// duplicate names. A failed registration leaves every existing entry
    /// untouched.
    pub fn register(&mut self, name: &str, description: &str, handler: H) -> (r: Result<
        (),
        RegistryError,
    >)
        ensures
            !usable_name(name.spec_bytes()) ==> r matches Err(RegistryError::InvalidName),
            usable_name(name.spec_bytes()) && reserved_name(name.spec_bytes()) ==> (r matches Err(
                RegistryError::Reserved(n),
            ) && n@ == name@),
            usable_name(name.spec_bytes()) && !reserved_name(name.spec_bytes()) && !valid_line(
                description.spec_bytes(),
            ) ==> r matches Err(RegistryError::InvalidDescription),
            usable_name(name.spec_bytes()) && !reserved_name(name.spec_bytes()) && valid_line(
                description.spec_bytes(),
            ) && registered(old(self)@, name.spec_bytes()) ==> (r matches Err(
                RegistryError::Duplicate(n),
            ) && n@ == name@),
            r is Ok <==> usable_name(name.spec_bytes()) && !reserved_name(name.spec_bytes())
                && valid_line(description.spec_bytes()) && !registered(
                old(self)@,
                name.spec_bytes(),
            ),
            r is Ok ==> final(self)@ == old(self)@.push((name.spec_bytes(), handler)),
            r is Err ==> final(self)@ == old(self)@,
    {
        proof {
            use_type_invariant(&*self);
        }
        match validate_name(name) {
            Err(e) => {
                return Err(e);
            },
            Ok(()) => {},
        }
        match validate_description(description) {
            Err(e) => {
                return Err(e);
            },
            Ok(()) => {},
        }
        match self.find(name.as_bytes()) {
            Some(_) => {
                return Err(RegistryError::Duplicate(name.to_owned()));
            },
            None => {},
        }
        let ghost before = self@;
        let mut entries: Vec<(String, H)> = Vec::new();
        core::mem::swap(&mut entries, &mut self.entries);
        entries.push((name.to_owned(), handler));
        proof {
            let added = Seq::new(
                entries@.len(),
                |i: int| (string_bytes(entries@[i].0@), entries@[i].1),
            );
            assert(added =~= before.push((name.spec_bytes(), handler)));
            assert(registry_names_valid(added));
        }
        self.entries = entries;
        proof {
            assert(self@ =~= before.push((name.spec_bytes(), handler)));
        }
        Ok(())
    }

    /// Borrows the handler registered under exactly `name`.
    pub fn get(&self, name: &str) -> (r: Option<&H>)
        ensures
            r is None <==> !registered(self@, name.spec_bytes()),
            r matches Some(h) ==> forall|i: int|
                0 <= i < self@.len() && #[trigger] self@[i].0 == name.spec_bytes() ==> self@[i].1
                    == *h,
    {
        proof {
            use_type_invariant(self);
        }
        match self.find(name.as_bytes()) {
            Some(i) => Some(&self.entries[i].1),
            None => None,
        }
    }

    /// The name of the `index`-th registered handler.
    pub fn name_at(&self, index: usize) -> (name: &str)
        requires
            index < self@.len(),
        ensures
            name.spec_bytes() == self@[index as int].0,
    {
        self.entries[index].0.as_str()
    }

    /// The `index`-th registered handler.
    pub fn handler_at(&self, index: usize) -> (handler: &H)
        requires
            index < self@.len(),
        ensures
            *handler == self@[index as int].1,
    {
        &self.entries[index].1
    }
}

/// A handler registered under a new name is what a lookup of that name
/// finds, and every other name finds what it found before.
pub proof fn law_lookup_after_register<H>(entries: Seq<(Seq<u8>, H)>, name: Seq<u8>, handler: H)
    requires
        registry_names_valid(entries),
        !registered(entries, name),
    ensures
        registered(entries.push((name, handler)), name),
        forall|i: int|
            0 <= i < entries.len() + 1 && (#[trigger] entries.push((name, handler))[i]).0 == name
                ==> entries.push((name, handler))[i].1 == handler,
        forall|other: Seq<u8>|
            other != name ==> (registered(entries.push((name, handler)), other) <==> registered(
                entries,
                other,
            )),
{
    let added = entries.push((name, handler));
    assert(added[entries.len() as int].0 == name);
    assert forall|other: Seq<u8>| other != name implies (registered(added, other) <==> registered(
        entries,
        other,
    )) by {
        if registered(added, other) {
            let i = choose|i: int| 0 <= i < added.len() && #[trigger] added[i].0 == other;
            assert(entries[i].0 == other);
        }
        if registered(entries, other) {
            let i = choose|i: int| 0 <= i < entries.len() && #[trigger] entries[i].0 == other;
            assert(added[i].0 == other);
        }
    }
}

impl<H> core::fmt::Debug for Registry<H> {
    /// Reports the number of handlers, never their names.
    #[verifier::external_body]
    fn fmt(&self, f: &mut core::fmt::Formatter<'_>) -> core::fmt::Result {
        f.debug_struct("Registry").field("len", &self.entries.len()).finish_non_exhaustive()
    }
}

} // verus!
