//! The memoizing class registry.
//!
//! A registry maps a logical class name to its decoded class file. The
//! name is derived from a path by taking the final segment and removing
//! a trailing `.class` suffix. Insertion is first-wins: defining a name
//! that is already present returns the cached value unchanged and never
//! decodes the new bytes; a failed decode inserts nothing. A lookup
//! miss is reported as `None` rather than decoding anything.
//!
//! The registry is an explicit value passed by reference; a caller that
//! shares one across threads wraps it in a lock of its choosing.

use vstd::prelude::*;

use crate::bootstrap_class_loader::define_class;
use crate::bootstrap_class_loader::spec_define_class;
use crate::error::DecodeError;
use crate::java_class_file::ClassFileModel;
use crate::java_class_file::JavaClassFileFormat;

verus! {

/// The characters of the `.class` suffix.
pub open spec fn class_suffix() -> Seq<char> {
    seq!['.', 'c', 'l', 'a', 's', 's']
}

/// Where the final path segment starts: the position just past the last
/// `/`, or 0 when the path has none.
pub open spec fn segment_start(p: Seq<char>) -> int
    decreases p.len(),
{
    if p.len() == 0 {
        0
    } else if p[p.len() - 1] == '/' {
        p.len() as int
    } else {
        segment_start(p.drop_last())
    }
}

/// The logical class name of a path: its final segment, without a
/// trailing `.class` suffix when one is present.
pub open spec fn spec_class_name(p: Seq<char>) -> Seq<char> {
    let seg = p.subrange(segment_start(p), p.len() as int);
    if seg.len() >= 6 && seg.subrange(seg.len() - 6, seg.len() as int) == class_suffix() {
        seg.subrange(0, seg.len() - 6)
    } else {
        seg
    }
}

/// The first entry under `name`, if any.
pub open spec fn spec_lookup(
    entries: Seq<(Seq<char>, ClassFileModel)>,
    name: Seq<char>,
) -> Option<ClassFileModel>
    decreases entries.len(),
{
    if entries.len() == 0 {
        None
    } else if entries[0].0 == name {
        Some(entries[0].1)
    } else {
        spec_lookup(entries.drop_first(), name)
    }
}

/// What one `define` call does to a registry: derive the name; when it
/// is already bound, return the cached value and change nothing; when it
/// is free, decode the bytes, and either insert and return the new value
/// or, on a failed decode, change nothing and return the failure.
pub open spec fn spec_registry_define(
    entries: Seq<(Seq<char>, ClassFileModel)>,
    path: Seq<char>,
    bytes: Seq<u8>,
) -> (Seq<(Seq<char>, ClassFileModel)>, Result<ClassFileModel, DecodeError>) {
    let name = spec_class_name(path);
    match spec_lookup(entries, name) {
        Some(m) => (entries, Ok(m)),
        None => match spec_define_class(bytes) {
            Ok(m) => (entries.push((name, m)), Ok(m)),
            Err(e) => (entries, Err(e)),
        },
    }
}

/// Memoizing cache from logical class name to decoded class file.
pub struct ClassRegistry {
    entries: Vec<(String, JavaClassFileFormat)>,
}

impl View for ClassRegistry {
    type V = Seq<(Seq<char>, ClassFileModel)>;

    closed spec fn view(&self) -> Seq<(Seq<char>, ClassFileModel)> {
        self.entries@.map_values(|e: (String, JavaClassFileFormat)| (e.0@, e.1@))
    }
}

/// The first match wins: when slot `j` holds `name` and no earlier slot
/// does, a lookup returns slot `j`'s value.
proof fn lemma_lookup_first(s: Seq<(Seq<char>, ClassFileModel)>, name: Seq<char>, j: int)
    requires
        0 <= j < s.len(),
        s[j].0 == name,
        forall|k: int| 0 <= k < j ==> s[k].0 != name,
    ensures
        spec_lookup(s, name) == Some(s[j].1),
    decreases j,
{
    if j > 0 {
        lemma_lookup_first(s.drop_first(), name, j - 1);
    }
}

/// A name held by no slot is not found.
proof fn lemma_lookup_absent(s: Seq<(Seq<char>, ClassFileModel)>, name: Seq<char>)
    requires
        forall|k: int| 0 <= k < s.len() ==> s[k].0 != name,
    ensures
        spec_lookup(s, name) is None,
    decreases s.len(),
{
    if s.len() > 0 {
        lemma_lookup_absent(s.drop_first(), name);
    }
}

/// Pushing a binding for a name that was absent makes lookups of that
/// name return it.
proof fn lemma_lookup_push(s: Seq<(Seq<char>, ClassFileModel)>, name: Seq<char>, m: ClassFileModel)
    requires
        spec_lookup(s, name) is None,
    ensures
        spec_lookup(s.push((name, m)), name) == Some(m),
    decreases s.len(),
{
    if s.len() == 0 {
        assert(s.push((name, m))[0] == (name, m));
    } else {
        assert(s.push((name, m)).drop_first() =~= s.drop_first().push((name, m)));
        lemma_lookup_push(s.drop_first(), name, m);
    }
}

/// Pushing a binding leaves lookups of every other name unchanged.
proof fn lemma_lookup_push_other(
    s: Seq<(Seq<char>, ClassFileModel)>,
    name: Seq<char>,
    m: ClassFileModel,
    other: Seq<char>,
)
    requires
        other != name,
    ensures
        spec_lookup(s.push((name, m)), other) == spec_lookup(s, other),
    decreases s.len(),
{
    if s.len() == 0 {
        assert(s.push((name, m))[0] == (name, m));
    } else {
        assert(s.push((name, m)).drop_first() =~= s.drop_first().push((name, m)));
        lemma_lookup_push_other(s.drop_first(), name, m, other);
    }
}

/// A `define` call touches no other binding: whatever it does for
/// `path`'s name, a lookup of any other name afterwards returns what it
/// returned before.
pub proof fn lemma_define_preserves_other_names(
    entries: Seq<(Seq<char>, ClassFileModel)>,
    path: Seq<char>,
    bytes: Seq<u8>,
    other: Seq<char>,
)
    requires
        other != spec_class_name(path),
    ensures
        spec_lookup(spec_registry_define(entries, path, bytes).0, other) == spec_lookup(
            entries,
            other,
        ),
{
    let name = spec_class_name(path);
    match spec_lookup(entries, name) {
        Some(_) => {},
        None => match spec_define_class(bytes) {
            Ok(m) => {
                lemma_lookup_push_other(entries, name, m, other);
            },
            Err(_) => {},
        },
    }
}

/// Memoization: after a successful `define` of a name that was free,
/// a lookup of that name returns exactly the decoded value.
pub proof fn lemma_define_then_find(
    entries: Seq<(Seq<char>, ClassFileModel)>,
    path: Seq<char>,
    bytes: Seq<u8>,
)
    requires
        spec_lookup(entries, spec_class_name(path)) is None,
        spec_define_class(bytes) is Ok,
    ensures
        spec_lookup(spec_registry_define(entries, path, bytes).0, spec_class_name(path)) == Some(
            spec_define_class(bytes)->Ok_0,
        ),
{
    lemma_lookup_push(entries, spec_class_name(path), spec_define_class(bytes)->Ok_0);
}

/// First-wins, stated of two consecutive `define` calls: when `path`'s
/// name is free and the first bytes decode, the first call inserts the
/// decoded value; the second call, whatever bytes it is handed, returns
/// that same value and leaves the registry exactly as the first call
/// left it. The second bytes are never consulted.
pub proof fn lemma_registry_first_wins(
    entries: Seq<(Seq<char>, ClassFileModel)>,
    path: Seq<char>,
    bytes_a: Seq<u8>,
    bytes_b: Seq<u8>,
)
    requires
        spec_lookup(entries, spec_class_name(path)) is None,
        spec_define_class(bytes_a) is Ok,
    ensures
        ({
            let (e1, r1) = spec_registry_define(entries, path, bytes_a);
            let (e2, r2) = spec_registry_define(e1, path, bytes_b);
            &&& r1 == Ok::<ClassFileModel, DecodeError>(spec_define_class(bytes_a)->Ok_0)
            &&& r2 == r1
            &&& e2 == e1
            &&& e1 == entries.push((spec_class_name(path), spec_define_class(bytes_a)->Ok_0))
        }),
{
    let name = spec_class_name(path);
    let m = spec_define_class(bytes_a)->Ok_0;
    lemma_lookup_push(entries, name, m);
}

/// Derives the logical class name from a path: the final path segment,
/// without a trailing `.class` suffix.
pub fn derive_name(path: &str) -> (name: String)
    ensures
        name@ == spec_class_name(path@),
{
    let ghost p = path@;
    let n = path.unicode_len();

    let mut start: usize = 0;
    let mut j: usize = 0;
    proof {
        assert(p.take(0) =~= Seq::<char>::empty());
    }
    while j < n
        invariant
            p == path@,
            n == p.len(),
            0 <= start <= j <= n,
            start as int == segment_start(p.take(j as int)),
        decreases n - j,
    {
        let c = path.get_char(j);
        j = j + 1;
        if c == '/' {
            start = j;
        }
        proof {
            assert(p.take(j as int).drop_last() =~= p.take(j as int - 1));
            assert(p.take(j as int)[j - 1] == c);
        }
    }
    proof {
        assert(p.take(n as int) =~= p);
    }

    let has_suffix: bool;
    if n - start >= 6 {
        let c0 = path.get_char(n - 6);
        let c1 = path.get_char(n - 5);
        let c2 = path.get_char(n - 4);
        let c3 = path.get_char(n - 3);
        let c4 = path.get_char(n - 2);
        let c5 = path.get_char(n - 1);
        has_suffix = c0 == '.' && c1 == 'c' && c2 == 'l' && c3 == 'a' && c4 == 's' && c5 == 's';
        proof {
            let seg = p.subrange(start as int, n as int);
            let suf = seg.subrange(seg.len() - 6, seg.len() as int);
            assert(suf[0] == c0 && suf[1] == c1 && suf[2] == c2 && suf[3] == c3 && suf[4] == c4
                && suf[5] == c5);
            if has_suffix {
                assert(suf =~= class_suffix());
            } else {
                assert(suf != class_suffix()) by {
                    if suf == class_suffix() {
                        assert(suf[0] == '.' && suf[1] == 'c' && suf[2] == 'l' && suf[3] == 'a'
                            && suf[4] == 's' && suf[5] == 's');
                    }
                }
            }
        }
    } else {
        has_suffix = false;
    }

    let end: usize = if has_suffix {
        n - 6
    } else {
        n
    };
    let seg_str = path.substring_char(start, end);
    let name = seg_str.to_owned();
    proof {
        let seg = p.subrange(start as int, n as int);
        if has_suffix {
            assert(name@ =~= seg.subrange(0, seg.len() - 6));
        } else {
            assert(name@ =~= seg);
        }
    }
    name
}

impl ClassRegistry {
    /// An empty registry.
    pub fn new() -> (r: ClassRegistry)
        ensures
            r@ == Seq::<(Seq<char>, ClassFileModel)>::empty(),
    {
        let r = ClassRegistry { entries: Vec::new() };
        proof {
            assert(r@ =~= Seq::<(Seq<char>, ClassFileModel)>::empty());
        }
        r
    }

    /// The slot of the first entry under `name`, if any.
    fn find_index(&self, name: &String) -> (r: Option<usize>)
        ensures
            match r {
                Some(j) => j < self@.len() && spec_lookup(self@, name@) == Some(self@[j as int].1),
                None => spec_lookup(self@, name@) is None,
            },
    {
        let mut j: usize = 0;
        while j < self.entries.len()
            invariant
                j <= self.entries@.len(),
                forall|k: int| 0 <= k < j ==> (#[trigger] self.entries@[k]).0@ != name@,
            decreases self.entries@.len() - j,
        {
            if self.entries[j].0.eq(name) {
                proof {
                    assert(forall|k: int| 0 <= k < j ==> #[trigger] self@[k].0 != name@);
                    lemma_lookup_first(self@, name@, j as int);
                }
                return Some(j);
            }
            j = j + 1;
        }
        proof {
            assert(forall|k: int| 0 <= k < self@.len() ==> #[trigger] self@[k].0 != name@);
            lemma_lookup_absent(self@, name@);
        }
        None
    }

    /// The cached class file under `name`, or `None` on a miss: a miss
    /// is reported, never papered over by decoding anything.
    pub fn find(&self, name: &String) -> (r: Option<&JavaClassFileFormat>)
        ensures
            match spec_lookup(self@, name@) {
                Some(m) => r is Some && r->Some_0@ == m,
                None => r is None,
            },
    {
        match self.find_index(name) {
            Some(j) => Some(&self.entries[j].1),
            None => None,
        }
    }

    /// Defines a class under the name derived from `path`: first-wins.
    ///
    /// When the name is already bound, the cached value is returned and
    /// the bytes are not decoded; when it is free, the bytes are decoded
    /// and the result inserted, or the decode failure returned with the
    /// registry unchanged.
    pub fn define(&mut self, path: &str, bytes: &[u8]) -> (r: Result<
        &JavaClassFileFormat,
        DecodeError,
    >)
        ensures
            final(self)@ == spec_registry_define(old(self)@, path@, bytes@).0,
            match spec_registry_define(old(self)@, path@, bytes@).1 {
                Ok(m) => r is Ok && r->Ok_0@ == m,
                Err(e) => r is Err && r->Err_0 == e,
            },
            // First-wins, stated directly: when the derived name is
            // already bound, the cached value comes back whatever the new
            // bytes hold — they are neither decoded nor compared — and
            // the registry is left exactly as it was.
            spec_lookup(old(self)@, spec_class_name(path@)) matches Some(c) ==> final(self)@ == old(
                self,
            )@ && r is Ok && r->Ok_0@ == c,
            // A failed decode inserts nothing.
            spec_lookup(old(self)@, spec_class_name(path@)) is None && spec_define_class(bytes@)
                is Err ==> final(self)@ == old(self)@ && r is Err,
    {
        let name = derive_name(path);
        match self.find_index(&name) {
            Some(j) => Ok(&self.entries[j].1),
            None => {
                match define_class(bytes) {
                    Ok(class_file) => {
                        proof {
                            lemma_lookup_push(old(self)@, name@, class_file@);
                        }
                        let ghost pre = self@;
                        self.entries.push((name, class_file));
                        proof {
                            assert(self@ =~= pre.push((name@, class_file@)));
                        }
                        let j = self.entries.len() - 1;
                        Ok(&self.entries[j].1)
                    },
                    Err(e) => Err(e),
                }
            },
        }
    }
}

} // verus!
