//! Luau identifiers: sanitising names and recognising keywords.

use vstd::prelude::*;

use crate::text::{option_text, same_text};

verus! {

/// Luau keywords (incl. the contextual `continue`) that can't name a binding.
pub const RESERVED: [&'static str; 22] = [
    "and",
    "break",
    "do",
    "else",
    "elseif",
    "end",
    "false",
    "for",
    "function",
    "if",
    "in",
    "local",
    "nil",
    "not",
    "or",
    "repeat",
    "return",
    "then",
    "true",
    "until",
    "while",
    "continue",
];

/// A character that an identifier may hold.
pub open spec fn identifier_char(c: char) -> bool {
    ('a' <= c && c <= 'z') || ('A' <= c && c <= 'Z') || ascii_digit(c) || c == '_'
}

/// An ASCII digit.
pub open spec fn ascii_digit(c: char) -> bool {
    '0' <= c && c <= '9'
}

/// A well-formed identifier: identifier characters only, at least one of them,
/// the first not a digit.
pub open spec fn is_identifier(s: Seq<char>) -> bool {
    &&& s.len() > 0
    &&& !ascii_digit(s[0])
    &&& forall|i: int| 0 <= i < s.len() ==> identifier_char(#[trigger] s[i])
}

/// Every character that an identifier may not hold replaced by `_`.
pub open spec fn underscored_chars(s: Seq<char>) -> Seq<char> {
    s.map_values(
        |c: char|
            if identifier_char(c) {
                c
            } else {
                '_'
            },
    )
}

/// `s` made safe to use as an identifier.
pub open spec fn sanitized(s: Seq<char>) -> Seq<char> {
    if s.len() > 0 && ascii_digit(s[0]) {
        seq!['_'] + underscored_chars(s)
    } else {
        underscored_chars(s)
    }
}

/// Whether `s` is a Luau keyword.
pub open spec fn reserved(s: Seq<char>) -> bool {
    exists|i: int| 0 <= i < RESERVED@.len() && (#[trigger] RESERVED@[i])@ == s
}

/// The key under which a class declares the field `s`.
pub open spec fn field_key_text(s: Seq<char>) -> Seq<char> {
    if reserved(sanitized(s)) {
        "[\""@ + sanitized(s) + "\"]"@
    } else {
        sanitized(s)
    }
}

/// The name under which `s` can be bound, if there is one.
pub open spec fn callable(s: Seq<char>) -> Option<Seq<char>> {
    if sanitized(s).len() > 0 && !reserved(sanitized(s)) {
        Some(sanitized(s))
    } else {
        None
    }
}

/// A sanitised name is a well-formed identifier, unless there was nothing to
/// name.
pub proof fn law_sanitized_is_identifier(s: Seq<char>)
    ensures
        s.len() > 0 ==> is_identifier(sanitized(s)),
        s.len() == 0 ==> sanitized(s).len() == 0,
{
}

/// Names that are well-formed identifiers already survive sanitising
/// unchanged.
pub proof fn law_identifiers_survive(s: Seq<char>)
    requires
        is_identifier(s),
    ensures
        sanitized(s) == s,
{
    assert(sanitized(s) =~= s);
}

/// Sanitising twice is sanitising once.
pub proof fn law_sanitized_idempotent(s: Seq<char>)
    ensures
        sanitized(sanitized(s)) == sanitized(s),
{
    assert(sanitized(sanitized(s)) =~= sanitized(s));
}

/// A name that can be bound is a well-formed identifier and no keyword, and a
/// well-formed identifier that is no keyword is bound under its own name: no
/// binding is ever renamed around a keyword.
pub proof fn law_callable_is_honest(s: Seq<char>)
    ensures
        callable(s) matches Some(name) ==> is_identifier(name) && !reserved(name),
        is_identifier(s) && !reserved(s) ==> callable(s) == Some(s),
        reserved(sanitized(s)) ==> callable(s) is None,
{
    if is_identifier(s) {
        law_identifiers_survive(s);
    }
}

/// Distinct well-formed field names get distinct keys, and a field whose name
/// is no keyword keeps it.
pub proof fn law_field_keys_preserve_names(a: Seq<char>, b: Seq<char>)
    requires
        is_identifier(a),
        is_identifier(b),
    ensures
        !reserved(a) ==> field_key_text(a) == a,
        reserved(a) ==> field_key_text(a) == "[\""@ + a + "\"]"@,
        field_key_text(a) == field_key_text(b) ==> a == b,
{
    law_identifiers_survive(a);
    law_identifiers_survive(b);
    reveal_strlit("[\"");
    reveal_strlit("\"]");
    let ka = "[\""@ + a + "\"]"@;
    let kb = "[\""@ + b + "\"]"@;
    assert(ka[0] == '[' && kb[0] == '[');
    assert(ka.subrange(2, 2 + a.len() as int) =~= a);
    assert(kb.subrange(2, 2 + b.len() as int) =~= b);
    if ka == kb {
        assert(ka.len() == a.len() + 4);
        assert(kb.len() == b.len() + 4);
    }
    assert(identifier_char(a[0]) && identifier_char(b[0]));
}

fn is_ascii_digit(c: char) -> (r: bool)
    ensures
        r == ascii_digit(c),
{
    '0' <= c && c <= '9'
}

fn is_identifier_char(c: char) -> (r: bool)
    ensures
        r == identifier_char(c),
{
    ('a' <= c && c <= 'z') || ('A' <= c && c <= 'Z') || is_ascii_digit(c) || c == '_'
}

/// Whether `s` is a Luau keyword.
pub fn is_reserved(s: &str) -> (r: bool)
    ensures
        r == reserved(s@),
{
    let words = RESERVED;
    let mut i: usize = 0;
    while i < 22
        invariant
            i <= 22,
            words@ == RESERVED@,
            forall|k: int| 0 <= k < i ==> (#[trigger] RESERVED@[k])@ != s@,
        decreases 22 - i,
    {
        if same_text(words[i], s) {
            assert(RESERVED@[i as int]@ == s@);
            return true;
        }
        i += 1;
    }
    false
}

/// Make an arbitrary Rust identifier/path safe to use as a Luau identifier.
pub fn sanitize(s: &str) -> (r: String)
    ensures
        r@ == sanitized(s@),
{
    let mut out = String::new();
    let ghost lead: Seq<char> = if s@.len() > 0 && ascii_digit(s@[0]) {
        seq!['_']
    } else {
        Seq::empty()
    };
    let ghost all = underscored_chars(s@);
    for c in it: s.chars()
        invariant
            it.seq() == s@,
            all == underscored_chars(s@),
            lead == (if s@.len() > 0 && ascii_digit(s@[0]) {
                seq!['_']
            } else {
                Seq::<char>::empty()
            }),
            it.index() == 0 ==> out@ == Seq::<char>::empty(),
            it.index() > 0 ==> out@ == lead + all.take(it.index()),
            out@.len() == 0 <==> it.index() == 0,
    {
        if out.as_str().is_empty() && is_ascii_digit(c) {
            out.push('_');
        }
        if is_identifier_char(c) {
            out.push(c);
        } else {
            out.push('_');
        }
        assert(out@ =~= lead + all.take(it.index() + 1));
    }
    assert(out@ =~= sanitized(s@));
    out
}

/// A class field key: a bare identifier, or a quoted key when the name is a Luau
/// keyword. Quoting preserves the real field name (`["end"]: T`) and is backed by
/// reflect index access, unlike renaming.
pub fn field_key(s: &str) -> (r: String)
    ensures
        r@ == field_key_text(s@),
{
    let n = sanitize(s);
    if is_reserved(n.as_str()) {
        let mut out = "[\"".to_owned();
        out.append(n.as_str());
        out.append("\"]");
        out
    } else {
        n
    }
}

/// A name usable in a `declare`/method position, or `None` if it is a reserved
/// Luau keyword (which cannot be represented without inventing an unbacked
/// alias).
pub fn callable_name(raw: &str) -> (r: Option<String>)
    ensures
        option_text(r) == callable(raw@),
{
    let name = sanitize(raw);
    if !name.as_str().is_empty() && !is_reserved(name.as_str()) {
        Some(name)
    } else {
        None
    }
}

} // verus!
