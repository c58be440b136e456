//! The template store: a read-only catalog of named template bodies,
//! populated once by the calling layer (the bundled set, and any
//! externally supplied files, already read).  Lookup is by first match on
//! the name; random choice draws an index from the outside random source.

use vstd::prelude::*;

use crate::errors::CharaError;

verus! {

/// One catalog entry: a template's name and its raw body.
pub struct Template {
    pub name: String,
    pub body: String,
}

/// The read-only catalog: built-in templates, and externally supplied ones
/// keyed by the path the calling layer read them from.
pub struct TemplateStore {
    builtins: Vec<Template>,
    externals: Vec<Template>,
}

/// Index of the first entry equal to `name`, or -1.
pub open spec fn index_of_name(names: Seq<Seq<char>>, name: Seq<char>) -> int
    decreases names.len(),
{
    if names.len() == 0 {
        -1
    } else if names[0] == name {
        0
    } else {
        let r = index_of_name(names.skip(1), name);
        if r < 0 {
            -1
        } else {
            r + 1
        }
    }
}

pub proof fn lemma_index_of_name_at(names: Seq<Seq<char>>, name: Seq<char>, i: int)
    requires
        0 <= i < names.len(),
        names[i] == name,
        forall|j: int| 0 <= j < i ==> names[j] != name,
    ensures
        index_of_name(names, name) == i,
    decreases names.len(),
{
    if i > 0 {
        assert forall|j: int| 0 <= j < i - 1 implies names.skip(1)[j] != name by {
            assert(names.skip(1)[j] == names[j + 1]);
        }
        assert(names.skip(1)[i - 1] == names[i]);
        lemma_index_of_name_at(names.skip(1), name, i - 1);
    }
}

pub proof fn lemma_index_of_name_none(names: Seq<Seq<char>>, name: Seq<char>)
    requires
        forall|j: int| 0 <= j < names.len() ==> names[j] != name,
    ensures
        index_of_name(names, name) == -1,
    decreases names.len(),
{
    if names.len() > 0 {
        assert forall|j: int| 0 <= j < names.skip(1).len() implies names.skip(1)[j] != name by {
            assert(names.skip(1)[j] == names[j + 1]);
        }
        lemma_index_of_name_none(names.skip(1), name);
    }
}

/// The index an injected seed picks among `n` entries.  The seeded source
/// is deterministic: the same seed over the same catalog picks the same
/// entry.
pub uninterp spec fn seeded_choice(seed: u64, n: int) -> int;

/// Relies on rand::Rng::gen_range over rand::thread_rng: a number below
/// `n` from the process-wide random source; nothing more is known of it.
#[verifier::external_body]
fn random_below(n: usize) -> (r: usize)
    requires
        n >= 1,
    ensures
        r < n,
{
    rand::Rng::gen_range(&mut rand::thread_rng(), 0..n)
}

/// Relies on rand::rngs::StdRng::seed_from_u64 and rand::Rng::gen_range: a
/// number below `n` computed from the seed alone, the same on every call
/// with the same seed and bound.
#[verifier::external_body]
fn seeded_below(seed: u64, n: usize) -> (r: usize)
    requires
        n >= 1,
    ensures
        r == seeded_choice(seed, n as int),
        r < n,
{
    let mut rng = <rand::rngs::StdRng as rand::SeedableRng>::seed_from_u64(seed);
    rand::Rng::gen_range(&mut rng, 0..n)
}

impl TemplateStore {
    /// The names of the built-in entries, in catalog order.
    pub closed spec fn builtin_names(self) -> Seq<Seq<char>> {
        self.builtins@.map_values(|t: Template| t.name@)
    }

    /// The bodies of the built-in entries, in catalog order.
    pub closed spec fn builtin_bodies(self) -> Seq<Seq<char>> {
        self.builtins@.map_values(|t: Template| t.body@)
    }

    /// The paths of the externally supplied entries.
    pub closed spec fn external_paths(self) -> Seq<Seq<char>> {
        self.externals@.map_values(|t: Template| t.name@)
    }

    /// The bodies of the externally supplied entries.
    pub closed spec fn external_bodies(self) -> Seq<Seq<char>> {
        self.externals@.map_values(|t: Template| t.body@)
    }

    /// There are as many names as bodies, and as many paths as external
    /// bodies.
    pub proof fn lemma_lens(&self)
        ensures
            self.builtin_names().len() == self.builtin_bodies().len(),
            self.external_paths().len() == self.external_bodies().len(),
    {
    }

    /// Build the catalog: the built-in entries, and any externally
    /// supplied ones the calling layer has already read.
    pub fn new(builtins: Vec<Template>, externals: Vec<Template>) -> (r: Self)
        ensures
            r.builtin_names() == builtins@.map_values(|t: Template| t.name@),
            r.builtin_bodies() == builtins@.map_values(|t: Template| t.body@),
            r.external_paths() == externals@.map_values(|t: Template| t.name@),
            r.external_bodies() == externals@.map_values(|t: Template| t.body@),
    {
        TemplateStore { builtins, externals }
    }

    /// The body of the first built-in entry named `name`, or `NotFound`.
    pub fn get(&self, name: &str) -> (r: Result<String, CharaError>)
        ensures
            match r {
                Ok(b) => index_of_name(self.builtin_names(), name@) >= 0 && b@
                    == self.builtin_bodies()[index_of_name(self.builtin_names(), name@)],
                Err(e) => index_of_name(self.builtin_names(), name@) == -1 && e
                    == CharaError::NotFound,
            },
    {
        Self::lookup(&self.builtins, name, CharaError::NotFound)
    }

    /// The body of the first external entry read from `path`; `Io` when
    /// the calling layer supplied no such file.
    pub fn get_external(&self, path: &str) -> (r: Result<String, CharaError>)
        ensures
            match r {
                Ok(b) => index_of_name(self.external_paths(), path@) >= 0 && b@
                    == self.external_bodies()[index_of_name(self.external_paths(), path@)],
                Err(e) => index_of_name(self.external_paths(), path@) == -1 && e == CharaError::Io,
            },
    {
        Self::lookup(&self.externals, path, CharaError::Io)
    }

    /// First-match lookup in one entry list.
    fn lookup(entries: &Vec<Template>, name: &str, missing: CharaError) -> (r: Result<
        String,
        CharaError,
    >)
        ensures
            ({
                let names = entries@.map_values(|t: Template| t.name@);
                let bodies = entries@.map_values(|t: Template| t.body@);
                match r {
                    Ok(b) => index_of_name(names, name@) >= 0 && b@ == bodies[index_of_name(
                        names,
                        name@,
                    )],
                    Err(e) => index_of_name(names, name@) == -1 && e == missing,
                }
            }),
    {
        let ghost names = entries@.map_values(|t: Template| t.name@);
        let key = String::from_str(name);
        let n: usize = entries.len();
        let mut i: usize = 0;
        while i < n
            invariant
                n == entries@.len(),
                i <= n,
                key@ == name@,
                names == entries@.map_values(|t: Template| t.name@),
                forall|j: int| 0 <= j < i ==> names[j] != name@,
            decreases n - i,
        {
            if key.eq(&entries[i].name) {
                proof {
                    lemma_index_of_name_at(names, name@, i as int);
                }
                return Ok(entries[i].body.clone());
            }
            i += 1;
        }
        proof {
            lemma_index_of_name_none(names, name@);
        }
        Err(missing)
    }

    /// The built-in names, in catalog order.
    pub fn list(&self) -> (r: Vec<String>)
        ensures
            r@.map_values(|s: String| s@) == self.builtin_names(),
    {
        let n: usize = self.builtins.len();
        let mut out: Vec<String> = Vec::new();
        let mut i: usize = 0;
        while i < n
            invariant
                n == self.builtins@.len(),
                i <= n,
                out@.len() == i,
                forall|j: int| 0 <= j < i ==> out@[j]@ == self.builtin_names()[j],
            decreases n - i,
        {
            out.push(self.builtins[i].name.clone());
            i += 1;
        }
        proof {
            assert(out@.map_values(|s: String| s@) =~= self.builtin_names());
        }
        out
    }

    /// Every built-in entry, in catalog order.
    pub fn all(&self) -> (r: Vec<Template>)
        ensures
            r@.map_values(|t: Template| t.name@) == self.builtin_names(),
            r@.map_values(|t: Template| t.body@) == self.builtin_bodies(),
    {
        let n: usize = self.builtins.len();
        let mut out: Vec<Template> = Vec::new();
        let mut i: usize = 0;
        while i < n
            invariant
                n == self.builtins@.len(),
                i <= n,
                out@.len() == i,
                forall|j: int| 0 <= j < i ==> out@[j].name@ == self.builtin_names()[j],
                forall|j: int| 0 <= j < i ==> out@[j].body@ == self.builtin_bodies()[j],
            decreases n - i,
        {
            let t = Template {
                name: self.builtins[i].name.clone(),
                body: self.builtins[i].body.clone(),
            };
            out.push(t);
            i += 1;
        }
        proof {
            assert(out@.map_values(|t: Template| t.name@) =~= self.builtin_names());
            assert(out@.map_values(|t: Template| t.body@) =~= self.builtin_bodies());
        }
        out
    }

    /// One built-in entry chosen by the process-wide random source;
    /// `NotFound` on an empty catalog.  Nothing relates two calls: any
    /// entry may come back.
    pub fn random(&self) -> (r: Result<Template, CharaError>)
        ensures
            match r {
                Ok(t) => exists|i: int|
                    0 <= i < self.builtin_names().len() && t.name@ == self.builtin_names()[i]
                        && t.body@ == self.builtin_bodies()[i],
                Err(e) => self.builtin_names().len() == 0 && e == CharaError::NotFound,
            },
    {
        let n: usize = self.builtins.len();
        if n == 0 {
            return Err(CharaError::NotFound);
        }
        let i = random_below(n);
        let t = Template {
            name: self.builtins[i].name.clone(),
            body: self.builtins[i].body.clone(),
        };
        proof {
            assert(t.name@ == self.builtin_names()[i as int] && t.body@
                == self.builtin_bodies()[i as int]);
        }
        Ok(t)
    }

    /// The entry an injected seed picks: reproducible, the same entry for
    /// the same seed over the same catalog; `NotFound` on an empty
    /// catalog.
    pub fn random_seeded(&self, seed: u64) -> (r: Result<Template, CharaError>)
        ensures
            match r {
                Ok(t) => ({
                    let i = seeded_choice(seed, self.builtin_names().len() as int);
                    0 <= i < self.builtin_names().len() && t.name@ == self.builtin_names()[i]
                        && t.body@ == self.builtin_bodies()[i]
                }),
                Err(e) => self.builtin_names().len() == 0 && e == CharaError::NotFound,
            },
    {
        let n: usize = self.builtins.len();
        if n == 0 {
            return Err(CharaError::NotFound);
        }
        let i = seeded_below(seed, n);
        let t = Template {
            name: self.builtins[i].name.clone(),
            body: self.builtins[i].body.clone(),
        };
        Ok(t)
    }
}

/// Reproducibility of seeded choice: whatever two entries two successful
/// seeded draws with one seed return over one catalog, they are the same
/// entry, because the seeded index is a function of the seed and the
/// catalog size alone.
pub proof fn lemma_seeded_reproducible(
    store: TemplateStore,
    seed: u64,
    first: (Seq<char>, Seq<char>),
    second: (Seq<char>, Seq<char>),
)
    requires
        ({
            let i = seeded_choice(seed, store.builtin_names().len() as int);
            0 <= i < store.builtin_names().len() && first.0 == store.builtin_names()[i]
                && first.1 == store.builtin_bodies()[i]
        }),
        ({
            let i = seeded_choice(seed, store.builtin_names().len() as int);
            0 <= i < store.builtin_names().len() && second.0 == store.builtin_names()[i]
                && second.1 == store.builtin_bodies()[i]
        }),
    ensures
        first == second,
{
}

} // verus!
