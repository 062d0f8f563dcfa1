//! Names built out of other names.
use crate::ast::{Type, TypeView};
use crate::text::{
    all_digits, chars_of, decimal, decimal_text, digits_value, find_char, find_from, is_digit,
    joined, parse_unsigned, replace_char, replaced, text_between, text_is, unsigned_value,
};
use vstd::prelude::*;

verus! {

/// The part that a type adds to the name of a function that is specialized for
/// it. Different types may add the same.
pub open spec fn mangled(ty: TypeView) -> Seq<char>
    decreases ty,
{
    match ty {
        TypeView::Named(name) => replaced(name, '.', '_'),
        TypeView::Array { length, element } => "a"@ + decimal(length as nat) + "_"@ + mangled(
            *element,
        ),
        TypeView::Pointer(inner) => "p_"@ + mangled(*inner),
        TypeView::Slice(inner) => "s_"@ + mangled(*inner),
        TypeView::Unit => "unit"@,
        TypeView::Result { .. } => "result"@,
    }
}

/// The part that a type adds to the name of what is specialized for it.
pub fn mangle_type(ty: &Type) -> (r: String)
    ensures
        r@ == mangled(ty@),
    decreases ty,
{
    match ty {
        Type::Named(name) => replace_char(name, '.', '_'),
        Type::Array { length, element } => {
            let count: String = decimal_text(*length as u128);
            let inner: String = mangle_type(element);
            joined(joined(joined("a".to_owned(), count.as_str()), "_"), inner.as_str())
        },
        Type::Pointer(inner) => {
            let text: String = mangle_type(inner);
            joined("p_".to_owned(), text.as_str())
        },
        Type::Slice(inner) => {
            let text: String = mangle_type(inner);
            joined("s_".to_owned(), text.as_str())
        },
        Type::Unit => "unit".to_owned(),
        Type::Result { .. } => "result".to_owned(),
    }
}

// ---------------------------------------------------------------------------
// Type arguments in the names of structs
// ---------------------------------------------------------------------------

/// How a type reads as a type argument in the name of a struct. What is no name
/// starts with a mark that no name starts with.
pub open spec fn spelled(ty: TypeView) -> Seq<char>
    decreases ty,
{
    match ty {
        TypeView::Named(name) => replaced(name, '.', '_'),
        TypeView::Array { length, element } => "["@ + decimal(length as nat) + "]"@ + spelled(
            *element,
        ),
        TypeView::Pointer(inner) => "*"@ + spelled(*inner),
        TypeView::Slice(inner) => "[]"@ + spelled(*inner),
        TypeView::Unit => "unit"@,
        TypeView::Result { success, error } => "|"@ + spelled(*success) + ","@ + spelled(*error),
    }
}

/// How a type reads as a type argument in the name of a struct.
pub fn spell_type(ty: &Type) -> (r: String)
    ensures
        r@ == spelled(ty@),
    decreases ty,
{
    match ty {
        Type::Named(name) => replace_char(name, '.', '_'),
        Type::Array { length, element } => {
            let count: String = decimal_text(*length as u128);
            let inner: String = spell_type(element);
            joined(joined(joined("[".to_owned(), count.as_str()), "]"), inner.as_str())
        },
        Type::Pointer(inner) => {
            let text: String = spell_type(inner);
            joined("*".to_owned(), text.as_str())
        },
        Type::Slice(inner) => {
            let text: String = spell_type(inner);
            joined("[]".to_owned(), text.as_str())
        },
        Type::Unit => "unit".to_owned(),
        Type::Result { success, error } => {
            let first: String = spell_type(success);
            let second: String = spell_type(error);
            joined(joined(joined("|".to_owned(), first.as_str()), ","), second.as_str())
        },
    }
}

/// The type that is spelled from character `i` on, and where it ends.
pub open spec fn type_read(s: Seq<char>, i: int) -> Option<(TypeView, int)>
    decreases s.len() - i,
{
    if !(0 <= i < s.len()) {
        None
    } else if s[i] == '*' {
        match type_read(s, i + 1) {
            Some((inner, j)) => Some((TypeView::Pointer(Box::new(inner)), j)),
            None => None,
        }
    } else if s[i] == '[' {
        let j = find_from(s, i + 1, ']');
        if !(i < j < s.len()) {
            None
        } else if j == i + 1 {
            match type_read(s, j + 1) {
                Some((inner, k)) => Some((TypeView::Slice(Box::new(inner)), k)),
                None => None,
            }
        } else {
            match unsigned_value(s.subrange(i + 1, j)) {
                Some(n) => match type_read(s, j + 1) {
                    Some((inner, k)) => if n <= u64::MAX {
                        Some(
                            (TypeView::Array { length: n as u64, element: Box::new(inner) }, k),
                        )
                    } else {
                        None
                    },
                    None => None,
                },
                None => None,
            }
        }
    } else if s[i] == '|' {
        match type_read(s, i + 1) {
            Some((success, j)) => if i < j < s.len() && s[j] == ',' {
                match type_read(s, j + 1) {
                    Some((error, k)) => Some(
                        (
                            TypeView::Result {
                                success: Box::new(success),
                                error: Box::new(error),
                            },
                            k,
                        ),
                    ),
                    None => None,
                }
            } else {
                None
            },
            None => None,
        }
    } else {
        let j = find_from(s, i, ',');
        let name = s.subrange(i, j);
        if j <= i {
            None
        } else if name == "unit"@ {
            Some((TypeView::Unit, j))
        } else {
            Some((TypeView::Named(name), j))
        }
    }
}

fn read_type(chars: &Vec<char>, i: usize) -> (r: Option<(Type, usize)>)
    requires
        i <= chars.len(),
    ensures
        match r {
            Some((ty, j)) => type_read(chars@, i as int) == Some((ty@, j as int)) && j
                <= chars.len(),
            None => type_read(chars@, i as int) is None,
        },
    decreases chars.len() - i,
{
    if i == chars.len() {
        return None;
    }
    if chars[i] == '*' {
        let (inner, j) = read_type(chars, i + 1)?;
        Some((Type::Pointer(Box::new(inner)), j))
    } else if chars[i] == '[' {
        let j: usize = find_char(chars, i + 1, ']');
        if j >= chars.len() {
            return None;
        }
        if j == i + 1 {
            let (inner, k) = read_type(chars, j + 1)?;
            return Some((Type::Slice(Box::new(inner)), k));
        }
        let count: String = text_between(chars, i + 1, j);
        let length: u64 = parse_unsigned(&count)?;
        let (inner, k) = read_type(chars, j + 1)?;
        Some((Type::Array { length, element: Box::new(inner) }, k))
    } else if chars[i] == '|' {
        let (success, j) = read_type(chars, i + 1)?;
        if j <= i || j >= chars.len() || chars[j] != ',' {
            return None;
        }
        let (error, k) = read_type(chars, j + 1)?;
        Some((Type::Result { success: Box::new(success), error: Box::new(error) }, k))
    } else {
        let j: usize = find_char(chars, i, ',');
        if j <= i {
            return None;
        }
        let name: String = text_between(chars, i, j);
        if text_is(&name, "unit") {
            Some((Type::Unit, j))
        } else {
            Some((Type::Named(name), j))
        }
    }
}

/// The type that a part of a name stands for.
pub open spec fn unspelled(s: Seq<char>) -> TypeView {
    match type_read(s, 0) {
        Some((ty, end)) => if end == s.len() {
            ty
        } else {
            TypeView::Named(s)
        },
        None => TypeView::Named(s),
    }
}

/// The type that a part of a name stands for.
pub fn unspell_type(name: &String) -> (r: Type)
    ensures
        r@ == unspelled(name@),
{
    let chars: Vec<char> = chars_of(name.as_str());
    match read_type(&chars, 0) {
        Some((ty, end)) => if end == chars.len() {
            ty
        } else {
            Type::Named(name.clone())
        },
        None => Type::Named(name.clone()),
    }
}

/// Whether a text is a name: it starts with no mark, and has no dot or comma in
/// it.
pub open spec fn is_plain_name(name: Seq<char>) -> bool {
    &&& name.len() > 0
    &&& name != "unit"@
    &&& name[0] != '*' && name[0] != '[' && name[0] != '|'
    &&& forall|i: int| 0 <= i < name.len() ==> #[trigger] name[i] != ',' && name[i] != '.'
}

/// Whether the names in a type are names.
pub open spec fn has_plain_names(ty: TypeView) -> bool
    decreases ty,
{
    match ty {
        TypeView::Named(name) => is_plain_name(name),
        TypeView::Array { element, .. } => has_plain_names(*element),
        TypeView::Pointer(inner) => has_plain_names(*inner),
        TypeView::Slice(inner) => has_plain_names(*inner),
        TypeView::Unit => true,
        TypeView::Result { success, error } => has_plain_names(*success) && has_plain_names(*error),
    }
}

/// What is found first is found, however far it is.
proof fn lemma_found(s: Seq<char>, i: int, j: int, c: char)
    requires
        0 <= i <= j <= s.len(),
        forall|k: int| i <= k < j ==> #[trigger] s[k] != c,
        j < s.len() ==> s[j] == c,
    ensures
        find_from(s, i, c) == j,
    decreases j - i,
{
    if i < j {
        lemma_found(s, i + 1, j, c);
    }
}

proof fn lemma_decimal_reads_back(n: nat)
    ensures
        decimal(n).len() > 0,
        all_digits(decimal(n)),
        digits_value(decimal(n)) == n,
    decreases n,
{
    let s = decimal(n);
    if n < 10 {
        assert(s.drop_last() =~= Seq::empty());
        assert(digits_value(s.drop_last()) == 0);
    } else {
        lemma_decimal_reads_back(n / 10);
        assert(s.drop_last() =~= decimal(n / 10));
    }
}

/// Whether a type is read back from where it is spelled.
spec fn reads_back(before: Seq<char>, ty: TypeView, after: Seq<char>) -> bool {
    type_read(before + spelled(ty) + after, before.len() as int) == Some(
        (ty, (before.len() + spelled(ty).len()) as int),
    )
}

proof fn lemma_name_reads(before: Seq<char>, name: Seq<char>, after: Seq<char>)
    requires
        name == "unit"@ || is_plain_name(name),
        after.len() == 0 || after[0] == ',',
    ensures
        type_read(before + name + after, before.len() as int) == Some(
            (
                if name == "unit"@ {
                    TypeView::Unit
                } else {
                    TypeView::Named(name)
                },
                (before.len() + name.len()) as int,
            ),
        ),
{
    reveal_strlit("unit");
    let s = before + name + after;
    let i = before.len() as int;
    let end = i + name.len();
    assert forall|k: int| i <= k < end implies #[trigger] s[k] != ',' by {
        assert(s[k] == name[k - i]);
    }
    assert(end < s.len() ==> s[end] == after[0]);
    lemma_found(s, i, end, ',');
    assert(s[i] == name[0]);
    assert(s.subrange(i, end) =~= name);
}

proof fn lemma_pointer_reads(before: Seq<char>, inner: TypeView, after: Seq<char>)
    requires
        reads_back(before + "*"@, inner, after),
    ensures
        reads_back(before, TypeView::Pointer(Box::new(inner)), after),
{
    reveal_strlit("*");
    let ty = TypeView::Pointer(Box::new(inner));
    let s = before + spelled(ty) + after;
    assert(before + "*"@ + spelled(inner) + after =~= s);
    assert(s[before.len() as int] == '*');
}

proof fn lemma_slice_reads(before: Seq<char>, inner: TypeView, after: Seq<char>)
    requires
        reads_back(before + "[]"@, inner, after),
    ensures
        reads_back(before, TypeView::Slice(Box::new(inner)), after),
{
    reveal_strlit("[]");
    let ty = TypeView::Slice(Box::new(inner));
    let s = before + spelled(ty) + after;
    let i = before.len() as int;
    assert(before + "[]"@ + spelled(inner) + after =~= s);
    assert(s[i] == '[' && s[i + 1] == ']');
    lemma_found(s, i + 1, i + 1, ']');
}

proof fn lemma_array_reads(before: Seq<char>, length: u64, inner: TypeView, after: Seq<char>)
    requires
        reads_back(before + ("["@ + decimal(length as nat) + "]"@), inner, after),
    ensures
        reads_back(before, TypeView::Array { length, element: Box::new(inner) }, after),
{
    reveal_strlit("[");
    reveal_strlit("]");
    let ty = TypeView::Array { length, element: Box::new(inner) };
    let s = before + spelled(ty) + after;
    let i = before.len() as int;
    let digits = decimal(length as nat);
    lemma_decimal_reads_back(length as nat);
    let head = before + ("["@ + digits + "]"@);
    assert(head + spelled(inner) + after =~= s);
    let j = i + 1 + digits.len();
    assert(s[i] == '[');
    assert forall|k: int| i + 1 <= k < j implies #[trigger] s[k] != ']' by {
        assert(s[k] == digits[k - i - 1]);
        assert(is_digit(digits[k - i - 1]));
    }
    assert(s[j] == ']');
    lemma_found(s, i + 1, j, ']');
    assert(s.subrange(i + 1, j) =~= digits);
    assert(is_digit(digits[0]));
    assert(unsigned_value(digits) == Some(length as nat));
}

proof fn lemma_result_reads(
    before: Seq<char>,
    success: TypeView,
    error: TypeView,
    after: Seq<char>,
)
    requires
        reads_back(before + "|"@, success, ","@ + spelled(error) + after),
        reads_back(before + "|"@ + spelled(success) + ","@, error, after),
    ensures
        reads_back(
            before,
            TypeView::Result { success: Box::new(success), error: Box::new(error) },
            after,
        ),
{
    reveal_strlit("|");
    reveal_strlit(",");
    let ty = TypeView::Result { success: Box::new(success), error: Box::new(error) };
    let s = before + spelled(ty) + after;
    let rest = ","@ + spelled(error) + after;
    assert(before + "|"@ + spelled(success) + rest =~= s);
    let head = before + "|"@ + spelled(success) + ","@;
    assert(head + spelled(error) + after =~= s);
    assert(s[before.len() as int] == '|');
    assert(s[head.len() - 1] == ',');
}

proof fn lemma_spelled_reads(before: Seq<char>, ty: TypeView, after: Seq<char>)
    requires
        has_plain_names(ty),
        after.len() == 0 || after[0] == ',',
    ensures
        reads_back(before, ty, after),
    decreases ty,
{
    match ty {
        TypeView::Named(name) => {
            lemma_name_reads(before, name, after);
            assert(spelled(ty) =~= name);
        },
        TypeView::Unit => {
            lemma_name_reads(before, "unit"@, after);
        },
        TypeView::Pointer(inner) => {
            lemma_spelled_reads(before + "*"@, *inner, after);
            lemma_pointer_reads(before, *inner, after);
        },
        TypeView::Slice(inner) => {
            lemma_spelled_reads(before + "[]"@, *inner, after);
            lemma_slice_reads(before, *inner, after);
        },
        TypeView::Array { length, element } => {
            let head = before + ("["@ + decimal(length as nat) + "]"@);
            lemma_spelled_reads(head, *element, after);
            lemma_array_reads(before, length, *element, after);
        },
        TypeView::Result { success, error } => {
            reveal_strlit(",");
            lemma_spelled_reads(before + "|"@, *success, ","@ + spelled(*error) + after);
            lemma_spelled_reads(before + "|"@ + spelled(*success) + ","@, *error, after);
            lemma_result_reads(before, *success, *error, after);
        },
    }
}

/// A type argument in the name of a struct stands for the type that it was made
/// of: no two types read the same.
pub proof fn lemma_spelled_types_read_back(ty: TypeView)
    requires
        has_plain_names(ty),
    ensures
        unspelled(spelled(ty)) == ty,
{
    let none = Seq::<char>::empty();
    lemma_spelled_reads(none, ty, none);
    assert(none + spelled(ty) + none =~= spelled(ty));
}

} // verus!
