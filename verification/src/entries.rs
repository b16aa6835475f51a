//! One directory child: its display name and whether it is a directory,
//! and the display order of entries. Dot entries (names starting with `.`)
//! come first; within each group entries are ordered case-insensitively by
//! name, by code point of the lowercase form.

use vstd::prelude::*;
use vstd::string::StrSliceExecFns;

verus! {

/// The mathematical value of a [`DirEntryInfo`].
pub struct EntryModel {
    pub name: Seq<char>,
    pub is_dir: bool,
}

/// One immediate child of a directory, as shown in a listing.
#[derive(Debug)]
pub struct DirEntryInfo {
    pub name: String,
    pub is_dir: bool,
}

impl View for DirEntryInfo {
    type V = EntryModel;

    open spec fn view(&self) -> EntryModel {
        EntryModel { name: self.name@, is_dir: self.is_dir }
    }
}

impl DirEntryInfo {
    pub fn new(name: String, is_dir: bool) -> (e: Self)
        ensures
            e@.name == name@,
            e@.is_dir == is_dir,
    {
        Self { name, is_dir }
    }
}

/// The lowercase form of a string, as `str::to_lowercase` computes it.
pub uninterp spec fn lower_of(s: Seq<char>) -> Seq<char>;

/// Relies on str::to_lowercase: the lowercase form of a string depends on
/// its characters alone.
#[verifier::external_body]
pub(crate) fn to_lower(s: &str) -> (r: String)
    ensures
        r@ == lower_of(s@),
{
    s.to_lowercase()
}

/// Whether a name puts its entry in the leading dot group.
pub open spec fn is_dot_name(n: Seq<char>) -> bool {
    n.len() > 0 && n[0] == '.'
}

/// Lexicographic order on character sequences by code point.
pub open spec fn chars_le(a: Seq<char>, b: Seq<char>) -> bool
    decreases a.len(),
{
    if a.len() == 0 {
        true
    } else if b.len() == 0 {
        false
    } else if a[0] == b[0] {
        chars_le(a.drop_first(), b.drop_first())
    } else {
        (a[0] as int) < (b[0] as int)
    }
}

/// The display order: dot entries first, then case-insensitive by name.
pub open spec fn entry_le(a: EntryModel, b: EntryModel) -> bool {
    if is_dot_name(a.name) != is_dot_name(b.name) {
        is_dot_name(a.name)
    } else {
        chars_le(lower_of(a.name), lower_of(b.name))
    }
}

/// Any two character sequences are ordered one way or the other.
pub proof fn lemma_chars_le_total(a: Seq<char>, b: Seq<char>)
    ensures
        chars_le(a, b) || chars_le(b, a),
    decreases a.len(),
{
    if a.len() > 0 && b.len() > 0 {
        if a[0] == b[0] {
            lemma_chars_le_total(a.drop_first(), b.drop_first());
        } else {
            assert(a[0] as int != b[0] as int);
        }
    }
}

/// The order on character sequences is transitive.
pub proof fn lemma_chars_le_trans(a: Seq<char>, b: Seq<char>, c: Seq<char>)
    requires
        chars_le(a, b),
        chars_le(b, c),
    ensures
        chars_le(a, c),
    decreases a.len(),
{
    if a.len() > 0 && b.len() > 0 && c.len() > 0 && a[0] == b[0] && b[0] == c[0] {
        lemma_chars_le_trans(a.drop_first(), b.drop_first(), c.drop_first());
    }
}

/// The display order on entries is total.
pub proof fn lemma_entry_le_total(a: EntryModel, b: EntryModel)
    ensures
        entry_le(a, b) || entry_le(b, a),
{
    lemma_chars_le_total(lower_of(a.name), lower_of(b.name));
}

/// The display order on entries is transitive.
pub proof fn lemma_entry_le_trans(a: EntryModel, b: EntryModel, c: EntryModel)
    requires
        entry_le(a, b),
        entry_le(b, c),
    ensures
        entry_le(a, c),
{
    if is_dot_name(a.name) == is_dot_name(b.name) && is_dot_name(b.name) == is_dot_name(c.name) {
        lemma_chars_le_trans(lower_of(a.name), lower_of(b.name), lower_of(c.name));
    }
}

/// Compares two strings in the lexicographic order `chars_le`.
#[verifier::loop_isolation(false)]
fn chars_le_exec(a: &str, b: &str) -> (r: bool)
    ensures
        r == chars_le(a@, b@),
{
    let a_len = a.unicode_len();
    let b_len = b.unicode_len();
    let mut i: usize = 0;
    proof {
        assert(a@.skip(0) =~= a@);
        assert(b@.skip(0) =~= b@);
    }
    loop
        invariant
            0 <= i <= a_len,
            0 <= i <= b_len,
            chars_le(a@, b@) == chars_le(a@.skip(i as int), b@.skip(i as int)),
            chars_le(b@, a@) == chars_le(b@.skip(i as int), a@.skip(i as int)),
        decreases a_len - i,
    {
        if i >= a_len {
            return true;
        }
        if i >= b_len {
            return false;
        }
        let ca = a.get_char(i);
        let cb = b.get_char(i);
        proof {
            assert(a@.skip(i as int)[0] == a@[i as int]);
            assert(b@.skip(i as int)[0] == b@[i as int]);
        }
        if ca != cb {
            return (ca as u32) < (cb as u32);
        }
        proof {
            assert(a@.skip(i as int).drop_first() =~= a@.skip(i + 1));
            assert(b@.skip(i as int).drop_first() =~= b@.skip(i + 1));
        }
        i += 1;
    }
}

/// Whether the entry's name puts it in the leading dot group.
fn is_dot_name_exec(n: &str) -> (r: bool)
    ensures
        r == is_dot_name(n@),
{
    n.unicode_len() > 0 && n.get_char(0) == '.'
}

/// Decides the display order between two entries.
pub(crate) fn entry_le_exec(a: &DirEntryInfo, b: &DirEntryInfo) -> (r: bool)
    ensures
        r == entry_le(a@, b@),
{
    let a_dot = is_dot_name_exec(a.name.as_str());
    let b_dot = is_dot_name_exec(b.name.as_str());
    if a_dot != b_dot {
        a_dot
    } else {
        let la = to_lower(a.name.as_str());
        let lb = to_lower(b.name.as_str());
        chars_le_exec(la.as_str(), lb.as_str())
    }
}

} // verus!
