use vstd::prelude::*;

verus! {

use crate::text::str_eq;

// Configuration: a config file holds named modules, each naming the
// repository to track and the directories to install into and cache under.
// Finding, reading and merging the file is the surrounding program's
// concern; the library receives plain values.

/// The mathematical value of a [`ConfigModule`].
#[verifier::ext_equal]
pub struct ConfigModuleView {
    pub install_dir: Seq<char>,
    pub cache_dir: Seq<char>,
    pub repo: Seq<char>,
    pub owner: Seq<char>,
}

/// One configuration module: a repository (owner and name), the directory
/// releases are installed into, and the directory downloads are cached in.
#[derive(Debug)]
pub struct ConfigModule {
    pub install_dir: String,
    pub cache_dir: String,
    pub repo: String,
    pub owner: String,
}

impl View for ConfigModule {
    type V = ConfigModuleView;

    open spec fn view(&self) -> ConfigModuleView {
        ConfigModuleView {
            install_dir: self.install_dir@,
            cache_dir: self.cache_dir@,
            repo: self.repo@,
            owner: self.owner@,
        }
    }
}

impl Clone for ConfigModule {
    fn clone(&self) -> (res: Self)
        ensures
            res@ == self@,
    {
        ConfigModule {
            install_dir: self.install_dir.clone(),
            cache_dir: self.cache_dir.clone(),
            repo: self.repo.clone(),
            owner: self.owner.clone(),
        }
    }
}

/// The loaded configuration: where it came from, and its modules in file
/// order, each under its name.
#[derive(Debug)]
pub struct Config {
    pub path: String,
    pub modules: Vec<(String, ConfigModule)>,
}

/// The names of the modules, in order.
pub open spec fn module_names(modules: Seq<(String, ConfigModule)>) -> Seq<Seq<char>> {
    modules.map_values(|m: (String, ConfigModule)| m.0@)
}

/// Index of the first module of the given name, or the length if none.
pub open spec fn find_module(modules: Seq<(String, ConfigModule)>, name: Seq<char>) -> int
    decreases modules.len(),
{
    if modules.len() == 0 {
        0
    } else if modules[0].0@ == name {
        0
    } else {
        1 + find_module(modules.drop_first(), name)
    }
}

pub proof fn lemma_find_module(modules: Seq<(String, ConfigModule)>, name: Seq<char>)
    ensures
        0 <= find_module(modules, name) <= modules.len(),
        find_module(modules, name) < modules.len() ==> modules[find_module(modules, name)].0@
            == name,
        forall|k: int| 0 <= k < find_module(modules, name) ==> modules[k].0@ != name,
    decreases modules.len(),
{
    if modules.len() != 0 && modules[0].0@ != name {
        lemma_find_module(modules.drop_first(), name);
        assert(forall|k: int|
            1 <= k < modules.len() ==> #[trigger] modules[k] == modules.drop_first()[k - 1]);
    }
}

impl Config {
    pub fn new(path: String, modules: Vec<(String, ConfigModule)>) -> (r: Self)
        ensures
            r.path@ == path@,
            r.modules@ == modules@,
    {
        Config { path, modules }
    }

    /// The first module carrying the given name, if any.
    pub fn get_module(&self, name: &str) -> (r: Option<&ConfigModule>)
        ensures
            match r {
                Some(m) => find_module(self.modules@, name@) < self.modules@.len() && m@
                    == self.modules@[find_module(self.modules@, name@)].1@,
                None => find_module(self.modules@, name@) == self.modules@.len(),
            },
    {
        proof {
            lemma_find_module(self.modules@, name@);
        }
        let mut i: usize = 0;
        while i < self.modules.len()
            invariant
                i <= self.modules@.len(),
                forall|k: int| 0 <= k < i ==> #[trigger] self.modules@[k].0@ != name@,
            decreases self.modules@.len() - i,
        {
            if str_eq(self.modules[i].0.as_str(), name) {
                proof {
                    lemma_find_module(self.modules@, name@);
                }
                return Some(&self.modules[i].1);
            }
            i += 1;
        }
        proof {
            lemma_find_module(self.modules@, name@);
        }
        None
    }

    /// The first module in file order, if the file has any.
    pub fn first_module(&self) -> (r: Option<&ConfigModule>)
        ensures
            match r {
                Some(m) => self.modules@.len() > 0 && m@ == self.modules@[0].1@,
                None => self.modules@.len() == 0,
            },
    {
        if self.modules.len() > 0 {
            Some(&self.modules[0].1)
        } else {
            None
        }
    }
}

} // verus!
