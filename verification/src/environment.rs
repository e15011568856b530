//! The environment of the process, as far as the library reads it.
use vstd::prelude::*;

use crate::error::{Error, ErrorView};
use crate::path::{is_absolute, join_text, on, spelled, FilePath};
use crate::text;

verus! {

/// The platforms that the library tells apart.
#[derive(Debug, Clone, Copy, PartialEq, Eq, Structural)]
pub enum Platform {
    /// Linux and other systems of its kind.
    Unix,
    /// A system whose `/var`, `/tmp` and `/etc` lead below `/private`.
    MacOs,
    /// A system whose user directory is `USERPROFILE`.
    Windows,
}

/// A variable of the environment with its value, or that it is not set.
#[derive(Debug, Clone, PartialEq, Eq)]
pub struct Var {
    pub name: String,
    pub value: Option<FilePath>,
}

/// The platform and the variables; the last entry for a name counts.
#[derive(Debug, Clone, PartialEq, Eq)]
pub struct Environment {
    pub platform: Platform,
    pub vars: Vec<Var>,
}

#[verifier::ext_equal]
pub struct EnvironmentView {
    pub platform: Platform,
    pub vars: Map<Seq<char>, Seq<u8>>,
}

/// The variables that a list of entries leaves set.
pub open spec fn vars_of(vars: Seq<Var>) -> Map<Seq<char>, Seq<u8>>
    decreases vars.len(),
{
    if vars.len() == 0 {
        Map::empty()
    } else {
        let before = vars_of(vars.drop_last());
        match vars.last().value {
            Some(value) => before.insert(vars.last().name@, value@),
            None => before.remove(vars.last().name@),
        }
    }
}

impl View for Environment {
    type V = EnvironmentView;

    open spec fn view(&self) -> EnvironmentView {
        EnvironmentView { platform: self.platform, vars: vars_of(self.vars@) }
    }
}

/// The value of a variable.
pub open spec fn var(e: EnvironmentView, name: Seq<char>) -> Option<Seq<u8>> {
    if e.vars.dom().contains(name) {
        Some(e.vars[name])
    } else {
        None
    }
}

/// The value of a variable that is set to something.
pub open spec fn nonempty_var(e: EnvironmentView, name: Seq<char>) -> Option<Seq<u8>> {
    match var(e, name) {
        Some(value) => if spelled(value).len() > 0 {
            Some(value)
        } else {
            None
        },
        None => None,
    }
}

/// The user's home directory: `HOME`, or `USERPROFILE` on Windows where `HOME` is not set.
pub open spec fn home_dir(e: EnvironmentView) -> Result<Seq<u8>, ErrorView> {
    match nonempty_var(e, "HOME"@) {
        Some(home) => Ok(home),
        None => match nonempty_var(e, "USERPROFILE"@) {
            Some(home) => if e.platform == Platform::Windows {
                Ok(home)
            } else {
                Err(ErrorView::MissingHome)
            },
            None => Err(ErrorView::MissingHome),
        },
    }
}

/// The user directory on Windows: `USERPROFILE`, or `HOME` where it is not set.
pub open spec fn windows_user_dir(e: EnvironmentView) -> Result<Seq<u8>, ErrorView> {
    match nonempty_var(e, "USERPROFILE"@) {
        Some(home) => Ok(home),
        None => match nonempty_var(e, "HOME"@) {
            Some(home) => Ok(home),
            None => Err(ErrorView::MissingHome),
        },
    }
}

/// A variable that names a base directory counts only where it holds an absolute path.
pub open spec fn base_dir_var(e: EnvironmentView, name: Seq<char>) -> Option<Seq<u8>> {
    match var(e, name) {
        Some(value) => if is_absolute(e.platform, value) {
            Some(value)
        } else {
            None
        },
        None => None,
    }
}

/// A directory below the home directory.
pub open spec fn below_home(e: EnvironmentView, names: Seq<Seq<char>>) -> Result<
    Seq<u8>,
    ErrorView,
> {
    match home_dir(e) {
        Ok(home) => Ok(join_all(home, names)),
        Err(error) => Err(error),
    }
}

/// A path with names appended one after the other.
pub open spec fn join_all(base: Seq<u8>, names: Seq<Seq<char>>) -> Seq<u8>
    decreases names.len(),
{
    if names.len() == 0 {
        base
    } else {
        join_text(join_all(base, names.drop_last()), names.last())
    }
}

pub open spec fn xdg_data_home(e: EnvironmentView) -> Result<Seq<u8>, ErrorView> {
    match base_dir_var(e, "XDG_DATA_HOME"@) {
        Some(dir) => Ok(dir),
        None => below_home(e, seq![".local"@, "share"@]),
    }
}

pub open spec fn xdg_config_home(e: EnvironmentView) -> Result<Seq<u8>, ErrorView> {
    match base_dir_var(e, "XDG_CONFIG_HOME"@) {
        Some(dir) => Ok(dir),
        None => below_home(e, seq![".config"@]),
    }
}

/// The directory of Zsh's startup files: `ZDOTDIR`, or the home directory.
pub open spec fn zdotdir(e: EnvironmentView) -> Result<Seq<u8>, ErrorView> {
    match nonempty_var(e, "ZDOTDIR"@) {
        Some(dir) => Ok(dir),
        None => home_dir(e),
    }
}

/// Appends names to a directory that may not be known.
pub open spec fn below(dir: Result<Seq<u8>, ErrorView>, names: Seq<Seq<char>>) -> Result<
    Seq<u8>,
    ErrorView,
> {
    match dir {
        Ok(d) => Ok(join_all(d, names)),
        Err(error) => Err(error),
    }
}

/// Where PowerShell completions go.
pub open spec fn powershell_dir(e: EnvironmentView) -> Result<Seq<u8>, ErrorView> {
    if e.platform == Platform::Windows {
        below(windows_user_dir(e), seq!["Documents"@, "PowerShell"@, "Completions"@])
    } else {
        below(xdg_data_home(e), seq!["powershell"@, "completions"@])
    }
}

/// PowerShell's profile for the current user and all hosts. It does not follow
/// `XDG_CONFIG_HOME`.
pub open spec fn powershell_profile(e: EnvironmentView) -> Result<Seq<u8>, ErrorView> {
    if e.platform == Platform::Windows {
        below(windows_user_dir(e), seq!["Documents"@, "PowerShell"@, "profile.ps1"@])
    } else {
        below(home_dir(e), seq![".config"@, "powershell"@, "profile.ps1"@])
    }
}

/// The view of a path or an error.
pub open spec fn path_result(r: Result<FilePath, Error>) -> Result<Seq<u8>, ErrorView> {
    match r {
        Ok(path) => Ok(path@),
        Err(error) => Err(error@),
    }
}

/// Appends two names to a path.
pub fn join2(base: &FilePath, a: &str, b: &str) -> (r: FilePath)
    ensures
        r@ == join_all(base@, seq![a@, b@]),
{
    proof {
        reveal_with_fuel(join_all, 3);
        assert(seq![a@, b@].drop_last() =~= seq![a@]);
        assert(seq![a@].drop_last() =~= Seq::<Seq<char>>::empty());
    }
    base.join(a).join(b)
}

/// Appends one name to a path.
pub fn join1(base: &FilePath, a: &str) -> (r: FilePath)
    ensures
        r@ == join_all(base@, seq![a@]),
{
    proof {
        reveal_with_fuel(join_all, 2);
        assert(seq![a@].drop_last() =~= Seq::<Seq<char>>::empty());
    }
    base.join(a)
}

/// Appends three names to a path.
pub fn join3(base: &FilePath, a: &str, b: &str, c: &str) -> (r: FilePath)
    ensures
        r@ == join_all(base@, seq![a@, b@, c@]),
{
    let two = join2(base, a, b);
    proof {
        assert(seq![a@, b@, c@].drop_last() =~= seq![a@, b@]);
    }
    two.join(c)
}

/// Appends four names to a path.
pub fn join4(base: &FilePath, a: &str, b: &str, c: &str, d: &str) -> (r: FilePath)
    ensures
        r@ == join_all(base@, seq![a@, b@, c@, d@]),
{
    let three = join3(base, a, b, c);
    proof {
        assert(seq![a@, b@, c@, d@].drop_last() =~= seq![a@, b@, c@]);
    }
    three.join(d)
}

impl Environment {
    /// An environment without variables.
    pub fn new(platform: Platform) -> (r: Environment)
        ensures
            r@ == (EnvironmentView { platform, vars: Map::empty() }),
    {
        Environment { platform, vars: Vec::new() }
    }

    /// The environment with a variable set. A path in it is one of the platform.
    pub fn with_var(self, name: &str, value: &FilePath) -> (r: Environment)
        ensures
            r@ == (EnvironmentView {
                platform: self@.platform,
                vars: self@.vars.insert(name@, on(self@.platform, value@)),
            }),
    {
        let mut vars = self.vars;
        let ghost before = vars@;
        vars.push(Var { name: text::copy(name), value: Some(value.on(self.platform)) });
        assert(vars@.drop_last() =~= before);
        Environment { platform: self.platform, vars }
    }

    /// The environment with a variable not set.
    pub fn without_var(self, name: &str) -> (r: Environment)
        ensures
            r@ == (EnvironmentView {
                platform: self@.platform,
                vars: self@.vars.remove(name@),
            }),
    {
        let mut vars = self.vars;
        let ghost before = vars@;
        vars.push(Var { name: text::copy(name), value: None });
        assert(vars@.drop_last() =~= before);
        Environment { platform: self.platform, vars }
    }

    /// The value of a variable.
    pub fn var(&self, name: &str) -> (r: Option<&FilePath>)
        ensures
            crate::model::opt_path_ref(r) == var(self@, name@),
    {
        let mut i: usize = self.vars.len();
        assert(self.vars@.take(i as int) =~= self.vars@);
        while i > 0
            invariant
                i <= self.vars@.len(),
                var(self@, name@) == var(
                    (EnvironmentView {
                        platform: self@.platform,
                        vars: vars_of(self.vars@.take(i as int)),
                    }),
                    name@,
                ),
            decreases i,
        {
            i -= 1;
            assert(self.vars@.take(i + 1).drop_last() =~= self.vars@.take(i as int));
            assert(self.vars@.take(i + 1).last() == self.vars@[i as int]);
            if text::same(&self.vars[i].name, name) {
                return self.vars[i].value.as_ref();
            }
        }
        None
    }

    fn nonempty_var(&self, name: &str) -> (r: Option<FilePath>)
        ensures
            crate::model::opt_path(r) == nonempty_var(self@, name@),
    {
        match self.var(name) {
            Some(value) => if value.spelling().len() > 0 {
                Some(value.copy())
            } else {
                None
            },
            None => None,
        }
    }

    fn base_dir_var(&self, name: &str) -> (r: Option<FilePath>)
        ensures
            crate::model::opt_path(r) == base_dir_var(self@, name@),
    {
        match self.var(name) {
            Some(value) => if value.is_absolute(self.platform) {
                Some(value.copy())
            } else {
                None
            },
            None => None,
        }
    }

    /// The user's home directory.
    pub fn home_dir(&self) -> (r: Result<FilePath, Error>)
        ensures
            path_result(r) == home_dir(self@),
    {
        match self.nonempty_var("HOME") {
            Some(home) => {
                return Ok(home);
            },
            None => {},
        }
        match (self.platform, self.nonempty_var("USERPROFILE")) {
            (Platform::Windows, Some(home)) => Ok(home),
            _ => Err(Error::MissingHome),
        }
    }

    fn windows_user_dir(&self) -> (r: Result<FilePath, Error>)
        ensures
            path_result(r) == windows_user_dir(self@),
    {
        match self.nonempty_var("USERPROFILE") {
            Some(home) => Ok(home),
            None => match self.nonempty_var("HOME") {
                Some(home) => Ok(home),
                None => Err(Error::MissingHome),
            },
        }
    }

    /// The base directory for data files.
    pub fn xdg_data_home(&self) -> (r: Result<FilePath, Error>)
        ensures
            path_result(r) == xdg_data_home(self@),
    {
        match self.base_dir_var("XDG_DATA_HOME") {
            Some(dir) => Ok(dir),
            None => {
                let home = self.home_dir()?;
                Ok(join2(&home, ".local", "share"))
            },
        }
    }

    /// The base directory for configuration files.
    pub fn xdg_config_home(&self) -> (r: Result<FilePath, Error>)
        ensures
            path_result(r) == xdg_config_home(self@),
    {
        match self.base_dir_var("XDG_CONFIG_HOME") {
            Some(dir) => Ok(dir),
            None => {
                let home = self.home_dir()?;
                Ok(join1(&home, ".config"))
            },
        }
    }

    /// The directory of Zsh's startup files.
    pub fn zdotdir(&self) -> (r: Result<FilePath, Error>)
        ensures
            path_result(r) == zdotdir(self@),
    {
        match self.nonempty_var("ZDOTDIR") {
            Some(dir) => Ok(dir),
            None => self.home_dir(),
        }
    }

    /// Where PowerShell completions go.
    pub fn powershell_default_install_dir(&self) -> (r: Result<FilePath, Error>)
        ensures
            path_result(r) == powershell_dir(self@),
    {
        match self.platform {
            Platform::Windows => {
                let user = self.windows_user_dir()?;
                Ok(join3(&user, "Documents", "PowerShell", "Completions"))
            },
            _ => {
                let data = self.xdg_data_home()?;
                Ok(join2(&data, "powershell", "completions"))
            },
        }
    }

    /// PowerShell's profile for the current user and all hosts.
    pub fn powershell_profile_path(&self) -> (r: Result<FilePath, Error>)
        ensures
            path_result(r) == powershell_profile(self@),
    {
        match self.platform {
            Platform::Windows => {
                let user = self.windows_user_dir()?;
                Ok(join3(&user, "Documents", "PowerShell", "profile.ps1"))
            },
            _ => {
                let home = self.home_dir()?;
                Ok(join3(&home, ".config", "powershell", "profile.ps1"))
            },
        }
    }
}

} // verus!
