use vstd::prelude::*;
use vstd::string::StrSliceExecFns;

use crate::error::Error;

verus! {

/// Whether `c` may stand in a patch name: an ASCII letter or digit, a dash or an underscore.
pub open spec fn is_name_char(c: char) -> bool {
    ('a' <= c && c <= 'z') || ('A' <= c && c <= 'Z') || ('0' <= c && c <= '9') || c == '-' || c
        == '_'
}

/// A valid patch name is non-empty and made of name characters only.
pub open spec fn is_valid_name(s: Seq<char>) -> bool {
    s.len() > 0 && forall|i: int| 0 <= i < s.len() ==> is_name_char(#[trigger] s[i])
}

/// The names of a sequence of patch names, as character sequences.
pub open spec fn names_of(v: Seq<PatchName>) -> Seq<Seq<char>> {
    v.map_values(|p: PatchName| p@)
}

/// Appending a name appends its characters to the names.
pub proof fn lemma_names_of_push(v: Seq<PatchName>, x: PatchName)
    ensures
        names_of(v.push(x)) == names_of(v).push(x@),
{
    assert(names_of(v.push(x)) =~= names_of(v).push(x@));
}

/// Whether two strings hold the same characters.
pub fn same_text(a: &str, b: &str) -> (r: bool)
    ensures
        r == (a@ == b@),
{
    let n = a.unicode_len();
    if n != b.unicode_len() {
        return false;
    }
    let mut i: usize = 0;
    while i < n
        invariant
            n == a@.len(),
            n == b@.len(),
            i <= n,
            forall|j: int| 0 <= j < i ==> a@[j] == b@[j],
        decreases n - i,
    {
        if a.get_char(i) != b.get_char(i) {
            return false;
        }
        i = i + 1;
    }
    assert(a@ =~= b@);
    true
}

fn name_char_ok(c: char) -> (r: bool)
    ensures
        r == is_name_char(c),
{
    ('a' <= c && c <= 'z') || ('A' <= c && c <= 'Z') || ('0' <= c && c <= '9') || c == '-' || c
        == '_'
}

/// The name of a patch. Only `parse` makes one, so every value is a valid name.
#[derive(Clone, Debug)]
pub struct PatchName {
    name: String,
}

impl View for PatchName {
    type V = Seq<char>;

    closed spec fn view(&self) -> Seq<char> {
        self.name@
    }
}

impl PartialEq for PatchName {
    fn eq(&self, o: &PatchName) -> (r: bool) {
        self.name == o.name
    }
}

impl vstd::std_specs::cmp::PartialEqSpecImpl for PatchName {
    open spec fn obeys_eq_spec() -> bool {
        true
    }

    open spec fn eq_spec(&self, o: &PatchName) -> bool {
        self@ == o@
    }
}

impl Eq for PatchName {
}

impl PatchName {
    /// Checks that `s` is a valid patch name and makes one of it.
    pub fn parse(s: &str) -> (r: Result<PatchName, Error>)
        ensures
            r is Ok <==> is_valid_name(s@),
            r is Ok ==> r->Ok_0@ == s@,
            r is Err ==> r->Err_0 == Error::InvalidName,
    {
        let n = s.unicode_len();
        if n == 0 {
            return Err(Error::InvalidName);
        }
        let mut i: usize = 0;
        while i < n
            invariant
                n == s@.len(),
                i <= n,
                forall|j: int| 0 <= j < i ==> is_name_char(#[trigger] s@[j]),
            decreases n - i,
        {
            if !name_char_ok(s.get_char(i)) {
                return Err(Error::InvalidName);
            }
            i = i + 1;
        }
        Ok(PatchName { name: s.to_string() })
    }

    /// The name as a string slice.
    pub fn as_str(&self) -> (r: &str)
        ensures
            r@ == self@,
    {
        self.name.as_str()
    }

    /// The number of characters of the name.
    pub fn len(&self) -> (r: usize)
        ensures
            r == self@.len(),
    {
        self.name.as_str().unicode_len()
    }

    /// A copy of the name.
    pub fn copy(&self) -> (r: PatchName)
        ensures
            r@ == self@,
    {
        PatchName { name: self.name.clone() }
    }

    /// Whether two names are the same string.
    pub fn same(&self, o: &PatchName) -> (r: bool)
        ensures
            r == (self@ == o@),
    {
        self.name == o.name
    }

    /// The name as an owned string.
    pub fn to_string(&self) -> (r: String)
        ensures
            r@ == self@,
    {
        self.name.clone()
    }
}

/// A copy of a list of names.
pub fn copy_names(v: &Vec<PatchName>) -> (r: Vec<PatchName>)
    ensures
        names_of(r@) == names_of(v@),
{
    let mut out: Vec<PatchName> = Vec::new();
    let mut i: usize = 0;
    while i < v.len()
        invariant
            i <= v@.len(),
            names_of(out@) == names_of(v@.take(i as int)),
        decreases v.len() - i,
    {
        let ghost before = out@;
        out.push(v[i].copy());
        proof {
            lemma_names_of_push(before, out@.last());
            lemma_names_of_push(v@.take(i as int), v@[i as int]);
            assert(v@.take(i + 1) == v@.take(i as int).push(v@[i as int]));
        }
        i = i + 1;
    }
    assert(v@.take(v@.len() as int) == v@);
    out
}

} // verus!
