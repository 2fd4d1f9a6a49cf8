//! Identifiers: a canonical code, an underscore and a random suffix.
//!
//! The suffix has 22 symbols, each drawn from an alphabet of 62: the digits,
//! the upper-case letters and the lower-case letters, in this order.

use vstd::prelude::*;

verus! {

/// The number of symbols in a suffix.
pub const SUFFIX_LENGTH: usize = 22;

/// The number of symbols in the alphabet.
pub const ALPHABET_SIZE: usize = 62;

/// The symbol at place `i` of the alphabet.
pub open spec fn symbol(i: int) -> char {
    if i < 10 {
        (48 + i) as char
    } else if i < 36 {
        (55 + i) as char
    } else {
        (61 + i) as char
    }
}

/// The alphabet: `0` to `9`, `A` to `Z`, `a` to `z`.
pub open spec fn alphabet_symbols() -> Seq<char> {
    Seq::new(ALPHABET_SIZE as nat, |i: int| symbol(i))
}

/// Whether `c` is a digit or an unaccented Latin letter.
pub open spec fn is_symbol(c: char) -> bool {
    ||| '0' <= c <= '9'
    ||| 'A' <= c <= 'Z'
    ||| 'a' <= c <= 'z'
}

/// Whether `suffix` has the length of a suffix and holds symbols of the
/// alphabet only.
pub open spec fn is_suffix(suffix: Seq<char>) -> bool {
    &&& suffix.len() == SUFFIX_LENGTH
    &&& forall|i: int| 0 <= i < suffix.len() ==> is_symbol(#[trigger] suffix[i])
}

/// The identifier made of `code` and `suffix`.
pub open spec fn identifier_of(code: Seq<char>, suffix: Seq<char>) -> Seq<char> {
    code + seq!['_'] + suffix
}

/// Whether `identifier` is `code`, an underscore and a suffix.
pub open spec fn is_identifier(identifier: Seq<char>, code: Seq<char>) -> bool {
    exists|suffix: Seq<char>|
        is_suffix(suffix) && identifier == #[trigger] identifier_of(code, suffix)
}

/// The shape of an identifier: the code, then an underscore, then 22 digits
/// or unaccented Latin letters, and nothing more.
pub proof fn lemma_identifier_shape(identifier: Seq<char>, code: Seq<char>)
    ensures
        is_identifier(identifier, code) <==> {
            &&& identifier.len() == code.len() + 1 + SUFFIX_LENGTH
            &&& identifier.subrange(0, code.len() as int) == code
            &&& identifier[code.len() as int] == '_'
            &&& forall|i: int|
                code.len() < i < identifier.len() ==> is_symbol(#[trigger] identifier[i])
        },
{
    let n = code.len() as int;
    if is_identifier(identifier, code) {
        let suffix = choose|suffix: Seq<char>|
            is_suffix(suffix) && identifier == #[trigger] identifier_of(code, suffix);
        assert(identifier.subrange(0, n) =~= code);
        assert forall|i: int| n < i < identifier.len() implies is_symbol(
            #[trigger] identifier[i],
        ) by {
            assert(identifier[i] == suffix[i - n - 1]);
        }
    }
    if {
        &&& identifier.len() == n + 1 + SUFFIX_LENGTH
        &&& identifier.subrange(0, n) == code
        &&& identifier[n] == '_'
        &&& forall|i: int| n < i < identifier.len() ==> is_symbol(#[trigger] identifier[i])
    } {
        let suffix = identifier.subrange(n + 1, identifier.len() as int);
        assert forall|i: int| 0 <= i < suffix.len() implies is_symbol(#[trigger] suffix[i]) by {
            assert(suffix[i] == identifier[n + 1 + i]);
        }
        assert(is_suffix(suffix));
        assert forall|i: int| 0 <= i < identifier.len() implies identifier[i] == identifier_of(
            code,
            suffix,
        )[i] by {
            if i < n {
                assert(identifier.subrange(0, n)[i] == identifier[i]);
            }
        }
        assert(identifier =~= identifier_of(code, suffix));
    }
}

/// The alphabet holds exactly the digits and the unaccented Latin letters.
pub proof fn lemma_alphabet(c: char)
    ensures
        alphabet_symbols().contains(c) <==> is_symbol(c),
{
    let symbols = alphabet_symbols();
    if symbols.contains(c) {
        let i = choose|i: int| 0 <= i < symbols.len() && symbols[i] == c;
        assert(symbols[i] == symbol(i));
    }
    if is_symbol(c) {
        let i = if '0' <= c <= '9' {
            c as int - 48
        } else if 'A' <= c <= 'Z' {
            c as int - 55
        } else {
            c as int - 61
        };
        assert(symbols[i] == symbol(i));
        assert(symbol(i) == c);
    }
}

/// The alphabet, in order.
pub fn alphabet() -> (symbols: Vec<char>)
    ensures
        symbols@ == alphabet_symbols(),
{
    let mut symbols: Vec<char> = Vec::new();
    let mut i: u8 = 0;
    while i < 62
        invariant
            i <= 62,
            symbols@.len() == i,
            forall|j: int| 0 <= j < i ==> symbols@[j] == symbol(j),
        decreases 62 - i,
    {
        let c = if i < 10 {
            (48 + i) as char
        } else if i < 36 {
            (55 + i) as char
        } else {
            (61 + i) as char
        };
        symbols.push(c);
        i += 1;
    }
    assert(symbols@ =~= alphabet_symbols());
    symbols
}

/// Calls `nanoid::format` with the generator `nanoid::rngs::default`, which
/// draws from the operating system's entropy. Trusted: the result has `size`
/// symbols, each of them one of `alphabet`. Nothing is said of which: two
/// calls differ. The call would panic on an alphabet of more than 255
/// symbols, and would not return on an empty one, on size 0, or where a symbol
/// of more than one byte makes the length in bytes step over `size`.
#[verifier::external_body]
fn random_string(alphabet: &[char], size: usize) -> (id: String)
    requires
        0 < alphabet@.len() <= 255,
        forall|i: int| 0 <= i < alphabet@.len() ==> (#[trigger] alphabet@[i]) as u32 <= 127,
        0 < size,
        8 * size <= usize::MAX,
    ensures
        id@.len() == size,
        forall|i: int| 0 <= i < id@.len() ==> alphabet@.contains(#[trigger] id@[i]),
{
    nanoid::format(nanoid::rngs::default, alphabet, size)
}

/// A fresh random suffix.
pub fn random_suffix() -> (suffix: String)
    ensures
        is_suffix(suffix@),
{
    let symbols = alphabet();
    let suffix = random_string(symbols.as_slice(), SUFFIX_LENGTH);
    proof {
        assert forall|i: int| 0 <= i < suffix@.len() implies is_symbol(#[trigger] suffix@[i]) by {
            lemma_alphabet(suffix@[i]);
        }
    }
    suffix
}

/// Composes the identifier: the code, an underscore, the suffix.
pub fn compose(code: &str, suffix: &str) -> (identifier: String)
    ensures
        identifier@ == identifier_of(code@, suffix@),
{
    let mut identifier = code.to_owned();
    proof {
        reveal_strlit("_");
    }
    identifier.append("_");
    identifier.append(suffix);
    assert("_"@ =~= seq!['_']);
    identifier
}

} // verus!
