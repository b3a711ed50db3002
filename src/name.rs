//! Matrix names: an uppercase letter followed by letters, digits and underscores.

use vstd::prelude::*;

verus! {

/// Whether `c` may start a matrix name.
pub open spec fn is_name_head(c: char) -> bool {
    'A' <= c && c <= 'Z'
}

/// Whether `c` may follow the first character of a matrix name: `[A-Za-z0-9_]`.
pub open spec fn is_word_char(c: char) -> bool {
    ('A' <= c && c <= 'Z') || ('a' <= c && c <= 'z') || ('0' <= c && c <= '9') || c == '_'
}

/// A whole string is a matrix name: it has the shape `[A-Z][A-Za-z0-9_]*`.
pub open spec fn is_valid_name(s: Seq<char>) -> bool {
    &&& s.len() >= 1
    &&& is_name_head(s[0])
    &&& forall|i: int| 1 <= i < s.len() ==> is_word_char(#[trigger] s[i])
}

/// Whether `c` continues a name inside an expression: a lowercase letter or `_`. An
/// uppercase letter starts the next name, so `AB` reads as `A` times `B`.
pub open spec fn is_name_tail(c: char) -> bool {
    ('a' <= c && c <= 'z') || c == '_'
}

/// A name that an expression spells as a single token: one uppercase letter, then only
/// lowercase letters and underscores.
pub open spec fn reads_as_one_name(s: Seq<char>) -> bool {
    &&& s.len() >= 1
    &&& is_name_head(s[0])
    &&& forall|i: int| 1 <= i < s.len() ==> is_name_tail(#[trigger] s[i])
}

/// A name that reads as one token is a valid name.
pub proof fn lemma_one_token_name_is_valid(s: Seq<char>)
    requires
        reads_as_one_name(s),
    ensures
        is_valid_name(s),
{
    assert forall|i: int| 1 <= i < s.len() implies is_word_char(#[trigger] s[i]) by {
        assert(is_name_tail(s[i]));
    }
}

/// A head character followed by a run of `t` tail characters forms a name that reads as
/// one token.
pub proof fn lemma_run_is_name(s: Seq<char>, i: int, t: int)
    requires
        0 <= i,
        0 <= t,
        i + 1 + t <= s.len(),
        is_name_head(s[i]),
        forall|j: int| i + 1 <= j < i + 1 + t ==> is_name_tail(#[trigger] s[j]),
    ensures
        reads_as_one_name(s.subrange(i, i + 1 + t)),
        is_valid_name(s.subrange(i, i + 1 + t)),
{
    let sub = s.subrange(i, i + 1 + t);
    assert(sub[0] == s[i]);
    assert forall|j: int| 1 <= j < sub.len() implies is_name_tail(#[trigger] sub[j]) by {
        assert(sub[j] == s[i + j]);
        assert(is_name_tail(s[i + j]));
    }
    lemma_one_token_name_is_valid(sub);
}

/// The name of a named matrix, in effect a variable name.
#[derive(Clone, Debug, PartialEq, Eq, Hash)]
pub struct MatrixName {
    name: String,
}

impl View for MatrixName {
    type V = Seq<char>;

    closed spec fn view(&self) -> Seq<char> {
        self.name@
    }
}

/// Checks each character of `s` against the name alphabet.
fn chars_form_name(s: &str) -> (r: bool)
    ensures
        r == is_valid_name(s@),
{
    let n = s.unicode_len();
    if n == 0 {
        return false;
    }
    if !('A' <= s.get_char(0) && s.get_char(0) <= 'Z') {
        return false;
    }
    let mut i: usize = 1;
    while i < n
        invariant
            1 <= i <= n,
            n == s@.len(),
            is_name_head(s@[0]),
            forall|j: int| 1 <= j < i ==> is_word_char(#[trigger] s@[j]),
        decreases n - i,
    {
        let c = s.get_char(i);
        if !(('A' <= c && c <= 'Z') || ('a' <= c && c <= 'z') || ('0' <= c && c <= '9') || c == '_') {
            assert(!is_word_char(s@[i as int]));
            return false;
        }
        i = i + 1;
    }
    true
}

impl MatrixName {
    /// Creates a matrix name from a string that is already known to be a valid name.
    pub fn new(name: &str) -> (r: MatrixName)
        requires
            is_valid_name(name@),
        ensures
            r@ == name@,
    {
        MatrixName { name: String::from_str(name) }
    }

    /// The checked builder: a name when `name` is valid, else `None`.
    pub fn try_new(name: &str) -> (r: Option<MatrixName>)
        ensures
            r is Some <==> is_valid_name(name@),
            r matches Some(m) ==> m@ == name@,
    {
        if chars_form_name(name) {
            Some(MatrixName::new(name))
        } else {
            None
        }
    }

    /// Whether `name` is a valid matrix name.
    pub fn is_valid(name: &str) -> (r: bool)
        ensures
            r == is_valid_name(name@),
    {
        chars_form_name(name)
    }

    /// Whether this name is valid; true of every name built by [`MatrixName::new`].
    pub fn self_is_valid(&self) -> (r: bool)
        ensures
            r == is_valid_name(self@),
    {
        chars_form_name(self.name.as_str())
    }

    /// A copy of this name.
    pub fn duplicate(&self) -> (r: MatrixName)
        ensures
            r@ == self@,
    {
        MatrixName { name: self.name.clone() }
    }

    /// Whether this is the name `T`, which as a power denotes transposition.
    pub fn is_transpose_marker(&self) -> (r: bool)
        ensures
            r == (self@ == seq!['T']),
    {
        let s = self.name.as_str();
        if s.unicode_len() == 1 && s.get_char(0) == 'T' {
            assert(self@ =~= seq!['T']);
            true
        } else {
            false
        }
    }

    /// The name as a string slice.
    pub fn as_str(&self) -> (r: &str)
        ensures
            r@ == self@,
    {
        self.name.as_str()
    }
}

} // verus!
