//! Program names and the registry of programs.

use std::any::TypeId;

use vstd::prelude::*;
use vstd::string::*;

use crate::ecs_types::same_type;

verus! {

/// Whether `c` has Unicode's `White_Space` property: the 25 code points that
/// the Unicode Character Database's PropList lists for it.
pub open spec fn unicode_white_space(c: char) -> bool {
    let u = c as u32;
    ||| 0x09 <= u <= 0x0D
    ||| u == 0x20
    ||| u == 0x85
    ||| u == 0xA0
    ||| u == 0x1680
    ||| 0x2000 <= u <= 0x200A
    ||| u == 0x2028
    ||| u == 0x2029
    ||| u == 0x202F
    ||| u == 0x205F
    ||| u == 0x3000
}

/// Calls `char::is_whitespace`, which std documents as reporting Unicode's
/// `White_Space` property.
#[verifier::external_body]
fn is_whitespace(c: char) -> (r: bool)
    ensures
        r == unicode_white_space(c),
{
    c.is_whitespace()
}

/// Calls `str`'s `==`, which compares the two strings' contents.
#[verifier::external_body]
fn same_text(a: &str, b: &str) -> (r: bool)
    ensures
        r == (a@ == b@),
    no_unwind
{
    a == b
}

/// Whether `name` is usable as a single command token: nonempty, with no
/// whitespace character.
pub open spec fn is_valid_program_name(name: Seq<char>) -> bool {
    name.len() > 0 && forall|i: int| 0 <= i < name.len() ==> !unicode_white_space(#[trigger] name[i])
}

/// The error reported for a name that is empty or holds whitespace.
pub const INVALID_PROGRAM_NAME: &'static str = "Program name must be nonempty and contain no whitespace.";

/// A program's runtime identity and command name.
#[derive(Clone, Copy, Debug, PartialEq, Eq, Hash)]
pub struct ProgramName(&'static str);

impl View for ProgramName {
    type V = Seq<char>;

    closed spec fn view(&self) -> Seq<char> {
        self.0@
    }
}

impl ProgramName {
    /// Constructs a name suitable for a single command token.
    pub fn new(name: &'static str) -> (r: Result<ProgramName, &'static str>)
        ensures
            r is Ok <==> is_valid_program_name(name@),
            r matches Ok(n) ==> n@ == name@,
            r matches Err(e) ==> e == INVALID_PROGRAM_NAME,
    {
        let length = name.unicode_len();
        if length == 0 {
            return Err(INVALID_PROGRAM_NAME);
        }
        let mut i: usize = 0;
        while i < length
            invariant
                0 <= i <= length,
                length == name@.len(),
                forall|j: int| 0 <= j < i ==> !unicode_white_space(#[trigger] name@[j]),
            decreases length - i,
        {
            if is_whitespace(name.get_char(i)) {
                return Err(INVALID_PROGRAM_NAME);
            }
            i += 1;
        }
        Ok(ProgramName(name))
    }

    /// Returns the name's text.
    pub fn name(&self) -> (text: &'static str)
        ensures
            text@ == self@,
        no_unwind
    {
        self.0
    }
}


/// One registered program: its name, the type that registered it, and the
/// data kept for it.
#[derive(Debug)]
struct RegisteredProgram<D> {
    name: ProgramName,
    owner: TypeId,
    data: D,
}

/// Registered programs indexed by their validated command name. `D` is the
/// data kept for each program (its systems, per schedule).
#[derive(Debug)]
pub struct Programs<D> {
    programs: Vec<RegisteredProgram<D>>,
}

/// Whether `i` is the first position of `programs` that holds the name `k`.
spec fn first_named<D>(programs: Seq<RegisteredProgram<D>>, i: int, k: Seq<char>) -> bool {
    &&& 0 <= i < programs.len()
    &&& programs[i].name@ == k
    &&& forall|j: int| 0 <= j < i ==> (#[trigger] programs[j]).name@ != k
}

/// Each name held by `programs`, with the owner and data at its first position.
spec fn registry_view<D>(programs: Seq<RegisteredProgram<D>>) -> Map<Seq<char>, (TypeId, D)> {
    Map::new(
        |k: Seq<char>| exists|i: int| 0 <= i < programs.len() && (#[trigger] programs[i]).name@ == k,
        |k: Seq<char>|
            {
                let i = choose|i: int| first_named(programs, i, k);
                (programs[i].owner, programs[i].data)
            },
    )
}

impl<D> View for Programs<D> {
    /// Each registered name, with the type that registered it and its data.
    type V = Map<Seq<char>, (TypeId, D)>;

    closed spec fn view(&self) -> Map<Seq<char>, (TypeId, D)> {
        registry_view(self.programs@)
    }
}

/// Replacing the data at the first position of a name changes only that
/// name's entry.
proof fn lemma_replace_data<D>(programs: Seq<RegisteredProgram<D>>, i: int)
    requires
        first_named(programs, i, programs[i].name@),
    ensures
        forall|data: D|
            #[trigger] registry_view(
                programs.update(
                    i,
                    RegisteredProgram { name: programs[i].name, owner: programs[i].owner, data },
                ),
            ) == registry_view(programs).insert(programs[i].name@, (programs[i].owner, data)),
{
    let k = programs[i].name@;
    assert forall|data: D|
        #[trigger] registry_view(
            programs.update(
                i,
                RegisteredProgram { name: programs[i].name, owner: programs[i].owner, data },
            ),
        ) == registry_view(programs).insert(k, (programs[i].owner, data)) by {
        let entry = RegisteredProgram { name: programs[i].name, owner: programs[i].owner, data };
        let after = programs.update(i, entry);
        let target = registry_view(programs).insert(k, (programs[i].owner, data));
        assert forall|n: Seq<char>| #[trigger] registry_view(after).contains_key(n) == target.contains_key(n) by {
            if registry_view(after).contains_key(n) {
                let j = choose|j: int| 0 <= j < after.len() && (#[trigger] after[j]).name@ == n;
                assert(programs[j].name@ == n);
            }
            if registry_view(programs).contains_key(n) {
                let j = choose|j: int| 0 <= j < programs.len() && (#[trigger] programs[j]).name@ == n;
                assert(after[j].name@ == n);
            }
            if n == k {
                assert(after[i].name@ == n);
            }
        }
        assert forall|n: Seq<char>| #[trigger] registry_view(after).contains_key(n) implies registry_view(after)[n] == target[n] by {
            let j = choose|j: int| 0 <= j < after.len() && (#[trigger] after[j]).name@ == n;
            Programs::<D>::lemma_first_exists(after, j, n);
            let f = choose|f: int| first_named(after, f, n);
            assert(first_named(programs, f, n)) by {
                assert forall|m: int| 0 <= m < f implies (#[trigger] programs[m]).name@ != n by {
                    assert(after[m].name@ == programs[m].name@);
                }
            }
            let g = choose|g: int| first_named(programs, g, n);
            if g < f {
                assert(programs[g].name@ != n);
            } else if f < g {
                assert(programs[f].name@ != n);
            }
            if n == k {
                if f < i {
                    assert(programs[f].name@ != k);
                } else if i < f {
                    assert(after[i].name@ != n);
                }
            } else {
                assert(f != i);
            }
        }
        assert(registry_view(after) =~= target);
    }
}

impl<D> Programs<D> {
    /// A name held somewhere has a first position.
    proof fn lemma_first_exists(programs: Seq<RegisteredProgram<D>>, i: int, k: Seq<char>)
        requires
            0 <= i < programs.len(),
            programs[i].name@ == k,
        ensures
            exists|f: int| first_named(programs, f, k),
        decreases i,
    {
        if exists|j: int| 0 <= j < i && (#[trigger] programs[j]).name@ == k {
            let j = choose|j: int| 0 <= j < i && (#[trigger] programs[j]).name@ == k;
            Self::lemma_first_exists(programs, j, k);
        } else {
            assert(first_named(programs, i, k));
        }
    }

    /// The first position holding a name is the one the view reads.
    proof fn lemma_program_at(self, i: int)
        requires
            first_named(self.programs@, i, self.programs@[i].name@),
        ensures
            self@.contains_key(self.programs@[i].name@),
            self@[self.programs@[i].name@] == (self.programs@[i].owner, self.programs@[i].data),
    {
        let k = self.programs@[i].name@;
        assert(self@.contains_key(k));
        let f = choose|f: int| first_named(self.programs@, f, k);
        if f < i {
            assert(self.programs@[f].name@ != k);
        } else if i < f {
            assert(self.programs@[i].name@ != k);
        }
    }

    /// No registered programs.
    pub fn new() -> (programs: Programs<D>)
        ensures
            programs@ == Map::<Seq<char>, (TypeId, D)>::empty(),
    {
        let programs = Programs { programs: Vec::new() };
        assert(programs@ =~= Map::<Seq<char>, (TypeId, D)>::empty());
        programs
    }

    /// The first index of the program named `name`, if it is registered.
    fn position(&self, name: &str) -> (index: Option<usize>)
        ensures
            index is None ==> !self@.contains_key(name@),
            index matches Some(i) ==> first_named(self.programs@, i as int, name@),
        no_unwind
    {
        let mut i: usize = 0;
        while i < self.programs.len()
            invariant
                0 <= i <= self.programs@.len(),
                forall|j: int| 0 <= j < i ==> (#[trigger] self.programs@[j]).name@ != name@,
            decreases self.programs@.len() - i,
        {
            if same_text(self.programs[i].name.name(), name) {
                return Some(i);
            }
            i += 1;
        }
        None
    }

    /// Whether a program named `name` is registered.
    pub fn contains(&self, name: ProgramName) -> (r: bool)
        ensures
            r == self@.contains_key(name@),
    {
        self.position(name.name()).is_some()
    }

    /// The type that registered the program named `name`, if any.
    pub fn owner_of(&self, name: ProgramName) -> (owner: Option<TypeId>)
        ensures
            owner is Some == self@.contains_key(name@),
            owner matches Some(o) ==> o == self@[name@].0,
    {
        match self.position(name.name()) {
            Some(i) => {
                proof {
                    self.lemma_program_at(i as int);
                }
                Some(self.programs[i].owner)
            },
            None => None,
        }
    }

    /// Returns the registered name whose text is `name`.
    pub fn get_by_name(&self, name: &str) -> (found: Option<ProgramName>)
        ensures
            found is Some == self@.contains_key(name@),
            found matches Some(n) ==> n@ == name@,
    {
        match self.position(name) {
            Some(i) => Some(self.programs[i].name),
            None => None,
        }
    }

    /// Returns the data of the program named `name`.
    pub fn get(&self, name: ProgramName) -> (data: Option<&D>)
        ensures
            data is Some == self@.contains_key(name@),
            data matches Some(d) ==> *d == self@[name@].1,
    {
        match self.position(name.name()) {
            Some(i) => {
                proof {
                    self.lemma_program_at(i as int);
                }
                Some(&self.programs[i].data)
            },
            None => None,
        }
    }

    /// Returns the data of the program named `name`, for changing it.
    pub fn get_mut(&mut self, name: ProgramName) -> (data: Option<&mut D>)
        ensures
            data is Some == old(self)@.contains_key(name@),
            data matches Some(d) ==> *d == old(self)@[name@].1 && final(self)@ == old(self)@.insert(
                name@,
                (old(self)@[name@].0, *final(d)),
            ),
            data is None ==> final(self)@ == old(self)@,
    {
        match self.position(name.name()) {
            Some(i) => {
                proof {
                    self.lemma_program_at(i as int);
                    lemma_replace_data(self.programs@, i as int);
                }
                Some(&mut self.programs[i].data)
            },
            None => None,
        }
    }

    /// Registers `name` for `owner` with `data`; a name already registered
    /// (necessarily by the same owner) keeps its entry and `data` is dropped.
    pub fn register(&mut self, name: ProgramName, owner: TypeId, data: D)
        requires
            old(self)@.contains_key(name@) ==> old(self)@[name@].0 == owner,
        ensures
            final(self)@ == if old(self)@.contains_key(name@) {
                old(self)@
            } else {
                old(self)@.insert(name@, (owner, data))
            },
    {
        if self.position(name.name()).is_some() {
            return;
        }
        let ghost before = self.programs@;
        self.programs.push(RegisteredProgram { name, owner, data });
        proof {
            let after = self.programs@;
            let n = before.len() as int;
            let k = name@;
            let target = registry_view(before).insert(k, (owner, data));
            assert forall|m: Seq<char>| #[trigger] registry_view(after).contains_key(m) == target.contains_key(m) by {
                if registry_view(after).contains_key(m) && m != k {
                    let j = choose|j: int| 0 <= j < after.len() && (#[trigger] after[j]).name@ == m;
                    assert(j != n);
                    assert(before[j].name@ == m);
                }
                if registry_view(before).contains_key(m) {
                    let j = choose|j: int| 0 <= j < before.len() && (#[trigger] before[j]).name@ == m;
                    assert(after[j].name@ == m);
                }
                if m == k {
                    assert(after[n].name@ == m);
                }
            }
            assert forall|m: Seq<char>| #[trigger] registry_view(after).contains_key(m) implies registry_view(after)[m] == target[m] by {
                let j = choose|j: int| 0 <= j < after.len() && (#[trigger] after[j]).name@ == m;
                Self::lemma_first_exists(after, j, m);
                let f = choose|f: int| first_named(after, f, m);
                if m == k {
                    assert forall|x: int| 0 <= x < n implies (#[trigger] before[x]).name@ != k by {
                        if before[x].name@ == k {
                            assert(registry_view(before).contains_key(k));
                        }
                    }
                    if f < n {
                        assert(after[f] == before[f]);
                    }
                    assert(f == n);
                } else {
                    assert(f != n);
                    assert(first_named(before, f, m)) by {
                        assert forall|x: int| 0 <= x < f implies (#[trigger] before[x]).name@ != m by {
                            assert(after[x] == before[x]);
                        }
                    }
                    let g = choose|g: int| first_named(before, g, m);
                    if g < f {
                        assert(after[g] == before[g]);
                    } else if f < g {
                        assert(before[f].name@ != m);
                    }
                }
            }
            assert(registry_view(after) =~= target);
        }
    }

    /// Returns the registered names, each once, in unspecified order.
    pub fn names(&self) -> (names: Vec<ProgramName>)
        ensures
            forall|k: Seq<char>|
                self@.contains_key(k) <==> exists|i: int| 0 <= i < names@.len() && (#[trigger] names@[i])@ == k,
            forall|i: int, j: int| 0 <= i < j < names@.len() ==> (#[trigger] names@[i])@ != (#[trigger] names@[j])@,
    {
        let mut names: Vec<ProgramName> = Vec::new();
        let ghost mut firsts: Seq<int> = Seq::empty();
        let mut i: usize = 0;
        while i < self.programs.len()
            invariant
                0 <= i <= self.programs@.len(),
                names@.len() == firsts.len(),
                forall|j: int| 0 <= j < firsts.len() ==> 0 <= #[trigger] firsts[j] < i,
                forall|a: int, b: int| 0 <= a < b < firsts.len() ==> #[trigger] firsts[a] < #[trigger] firsts[b],
                forall|j: int|
                    0 <= j < firsts.len() ==> (#[trigger] names@[j]) == self.programs@[firsts[j]].name
                        && first_named(self.programs@, firsts[j], names@[j]@),
                forall|f: int|
                    0 <= f < i && #[trigger] first_named(self.programs@, f, self.programs@[f].name@)
                        ==> exists|j: int| 0 <= j < firsts.len() && firsts[j] == f,
            decreases self.programs@.len() - i,
        {
            let name = self.programs[i].name;
            let first = self.position(name.name());
            if first == Some(i) {
                names.push(name);
                proof {
                    let old_firsts = firsts;
                    firsts = firsts.push(i as int);
                    assert forall|f: int|
                        0 <= f < i + 1 && #[trigger] first_named(self.programs@, f, self.programs@[f].name@)
                            implies exists|j: int| 0 <= j < firsts.len() && firsts[j] == f by {
                        if f < i {
                            let j = choose|j: int| 0 <= j < old_firsts.len() && old_firsts[j] == f;
                            assert(firsts[j] == f);
                        } else {
                            assert(firsts[firsts.len() - 1] == f);
                        }
                    }
                }
            } else {
                proof {
                    assert(self.programs@[i as int].name@ == name@);
                    if first_named(self.programs@, i as int, name@) {
                        assert(self@.contains_key(name@));
                        let f = first->0 as int;
                        if f < i {
                            assert(self.programs@[f].name@ == name@);
                        } else if f > i {
                            assert(self.programs@[i as int].name@ != name@);
                        }
                    }
                }
            }
            i += 1;
        }
        assert forall|k: Seq<char>|
            self@.contains_key(k) <==> exists|i: int| 0 <= i < names@.len() && (#[trigger] names@[i])@ == k by {
            if self@.contains_key(k) {
                let j = choose|j: int| 0 <= j < self.programs@.len() && (#[trigger] self.programs@[j]).name@ == k;
                Self::lemma_first_exists(self.programs@, j, k);
                let f = choose|f: int| first_named(self.programs@, f, k);
                assert(first_named(self.programs@, f, self.programs@[f].name@));
                let m = choose|m: int| 0 <= m < firsts.len() && firsts[m] == f;
                assert(names@[m]@ == k);
            }
            if exists|i: int| 0 <= i < names@.len() && (#[trigger] names@[i])@ == k {
                let j = choose|j: int| 0 <= j < names@.len() && (#[trigger] names@[j])@ == k;
                assert(self.programs@[firsts[j]].name@ == k);
            }
        }
        assert forall|a: int, b: int| 0 <= a < b < names@.len() implies (#[trigger] names@[a])@ != (#[trigger] names@[b])@ by {
            assert(firsts[a] < firsts[b]);
            assert(first_named(self.programs@, firsts[b], names@[b]@));
            if names@[a]@ == names@[b]@ {
                assert(self.programs@[firsts[a]].name@ == names@[b]@);
            }
        }
        names
    }
}

} // verus!
