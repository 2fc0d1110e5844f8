//! The closed set of supported package managers.

use vstd::prelude::*;

verus! {

/// A supported package manager. The set is fixed at build time.
#[derive(Debug, Clone, Copy, PartialEq, Eq, Hash, Structural)]
pub enum PackageManagerType {
    Brew,
    BrewCask,
    Npm,
    Pnpm,
    Yarn,
    Bun,
    Cargo,
    Pip,
    Pipx,
    Luarocks,
    Go,
    Uv,
}

/// The stable identifier of a manager, used in manifest file names and
/// cache keys.
pub open spec fn spec_id(m: PackageManagerType) -> Seq<char> {
    match m {
        PackageManagerType::Brew => "brew"@,
        PackageManagerType::BrewCask => "brew-cask"@,
        PackageManagerType::Npm => "npm"@,
        PackageManagerType::Pnpm => "pnpm"@,
        PackageManagerType::Yarn => "yarn"@,
        PackageManagerType::Bun => "bun"@,
        PackageManagerType::Cargo => "cargo"@,
        PackageManagerType::Pip => "pip"@,
        PackageManagerType::Pipx => "pipx"@,
        PackageManagerType::Luarocks => "luarocks"@,
        PackageManagerType::Go => "go"@,
        PackageManagerType::Uv => "uv"@,
    }
}

/// The name a manager is shown under.
pub open spec fn spec_display_name(m: PackageManagerType) -> Seq<char> {
    match m {
        PackageManagerType::Brew => "Homebrew"@,
        PackageManagerType::BrewCask => "Homebrew Cask"@,
        PackageManagerType::Npm => "npm"@,
        PackageManagerType::Pnpm => "pnpm"@,
        PackageManagerType::Yarn => "Yarn"@,
        PackageManagerType::Bun => "Bun"@,
        PackageManagerType::Cargo => "Cargo"@,
        PackageManagerType::Pip => "Pip"@,
        PackageManagerType::Pipx => "Pipx"@,
        PackageManagerType::Luarocks => "LuaRocks"@,
        PackageManagerType::Go => "Go"@,
        PackageManagerType::Uv => "uv"@,
    }
}

/// The manager whose identifier is `s`, if any.
pub open spec fn spec_from_str(s: Seq<char>) -> Option<PackageManagerType> {
    if s == "brew"@ {
        Some(PackageManagerType::Brew)
    } else if s == "brew-cask"@ {
        Some(PackageManagerType::BrewCask)
    } else if s == "npm"@ {
        Some(PackageManagerType::Npm)
    } else if s == "pnpm"@ {
        Some(PackageManagerType::Pnpm)
    } else if s == "yarn"@ {
        Some(PackageManagerType::Yarn)
    } else if s == "bun"@ {
        Some(PackageManagerType::Bun)
    } else if s == "cargo"@ {
        Some(PackageManagerType::Cargo)
    } else if s == "pip"@ {
        Some(PackageManagerType::Pip)
    } else if s == "pipx"@ {
        Some(PackageManagerType::Pipx)
    } else if s == "luarocks"@ {
        Some(PackageManagerType::Luarocks)
    } else if s == "go"@ {
        Some(PackageManagerType::Go)
    } else if s == "uv"@ {
        Some(PackageManagerType::Uv)
    } else {
        None
    }
}

/// All supported managers, in their standing order.
pub open spec fn spec_all_managers() -> Seq<PackageManagerType> {
    seq![
        PackageManagerType::Brew,
        PackageManagerType::BrewCask,
        PackageManagerType::Npm,
        PackageManagerType::Pnpm,
        PackageManagerType::Yarn,
        PackageManagerType::Bun,
        PackageManagerType::Cargo,
        PackageManagerType::Pip,
        PackageManagerType::Pipx,
        PackageManagerType::Luarocks,
        PackageManagerType::Go,
        PackageManagerType::Uv,
    ]
}

impl PackageManagerType {
    /// The manager's stable identifier.
    pub fn id(&self) -> (r: &'static str)
        ensures
            r@ == spec_id(*self),
    {
        match self {
            PackageManagerType::Brew => "brew",
            PackageManagerType::BrewCask => "brew-cask",
            PackageManagerType::Npm => "npm",
            PackageManagerType::Pnpm => "pnpm",
            PackageManagerType::Yarn => "yarn",
            PackageManagerType::Bun => "bun",
            PackageManagerType::Cargo => "cargo",
            PackageManagerType::Pip => "pip",
            PackageManagerType::Pipx => "pipx",
            PackageManagerType::Luarocks => "luarocks",
            PackageManagerType::Go => "go",
            PackageManagerType::Uv => "uv",
        }
    }

    /// The manager's display name.
    pub fn display_name(&self) -> (r: &'static str)
        ensures
            r@ == spec_display_name(*self),
    {
        match self {
            PackageManagerType::Brew => "Homebrew",
            PackageManagerType::BrewCask => "Homebrew Cask",
            PackageManagerType::Npm => "npm",
            PackageManagerType::Pnpm => "pnpm",
            PackageManagerType::Yarn => "Yarn",
            PackageManagerType::Bun => "Bun",
            PackageManagerType::Cargo => "Cargo",
            PackageManagerType::Pip => "Pip",
            PackageManagerType::Pipx => "Pipx",
            PackageManagerType::Luarocks => "LuaRocks",
            PackageManagerType::Go => "Go",
            PackageManagerType::Uv => "uv",
        }
    }

    /// Parse a manager identifier.
    pub fn from_str(s: &str) -> (r: Option<PackageManagerType>)
        ensures
            r == spec_from_str(s@),
    {
        if crate::text::str_eq(s, "brew") {
            Some(PackageManagerType::Brew)
        } else if crate::text::str_eq(s, "brew-cask") {
            Some(PackageManagerType::BrewCask)
        } else if crate::text::str_eq(s, "npm") {
            Some(PackageManagerType::Npm)
        } else if crate::text::str_eq(s, "pnpm") {
            Some(PackageManagerType::Pnpm)
        } else if crate::text::str_eq(s, "yarn") {
            Some(PackageManagerType::Yarn)
        } else if crate::text::str_eq(s, "bun") {
            Some(PackageManagerType::Bun)
        } else if crate::text::str_eq(s, "cargo") {
            Some(PackageManagerType::Cargo)
        } else if crate::text::str_eq(s, "pip") {
            Some(PackageManagerType::Pip)
        } else if crate::text::str_eq(s, "pipx") {
            Some(PackageManagerType::Pipx)
        } else if crate::text::str_eq(s, "luarocks") {
            Some(PackageManagerType::Luarocks)
        } else if crate::text::str_eq(s, "go") {
            Some(PackageManagerType::Go)
        } else if crate::text::str_eq(s, "uv") {
            Some(PackageManagerType::Uv)
        } else {
            None
        }
    }

    /// All supported managers, in their standing order.
    pub fn all() -> (r: Vec<PackageManagerType>)
        ensures
            r@ =~= spec_all_managers(),
    {
        let mut r: Vec<PackageManagerType> = Vec::new();
        r.push(PackageManagerType::Brew);
        r.push(PackageManagerType::BrewCask);
        r.push(PackageManagerType::Npm);
        r.push(PackageManagerType::Pnpm);
        r.push(PackageManagerType::Yarn);
        r.push(PackageManagerType::Bun);
        r.push(PackageManagerType::Cargo);
        r.push(PackageManagerType::Pip);
        r.push(PackageManagerType::Pipx);
        r.push(PackageManagerType::Luarocks);
        r.push(PackageManagerType::Go);
        r.push(PackageManagerType::Uv);
        r
    }
}

/// A manager's identifier parses back to that manager.
pub proof fn lemma_from_str_id(m: PackageManagerType)
    ensures
        spec_from_str(spec_id(m)) == Some(m),
{
    broadcast use vstd::string::group_string_axioms;
    reveal_strlit("brew");
    reveal_strlit("brew-cask");
    reveal_strlit("npm");
    reveal_strlit("pnpm");
    reveal_strlit("yarn");
    reveal_strlit("bun");
    reveal_strlit("cargo");
    reveal_strlit("pip");
    reveal_strlit("pipx");
    reveal_strlit("luarocks");
    reveal_strlit("go");
    reveal_strlit("uv");
    assert("brew"@.len() == 4);
    assert("brew-cask"@.len() == 9);
    assert("npm"@.len() == 3);
    assert("pnpm"@.len() == 4);
    assert("yarn"@.len() == 4);
    assert("bun"@.len() == 3);
    assert("cargo"@.len() == 5);
    assert("pip"@.len() == 3);
    assert("pipx"@.len() == 4);
    assert("luarocks"@.len() == 8);
    assert("go"@.len() == 2);
    assert("uv"@.len() == 2);
    assert("brew"@[0] == 'b');
    assert("npm"@[0] == 'n');
    assert("pnpm"@[0] == 'p');
    assert("pnpm"@[1] == 'n');
    assert("yarn"@[0] == 'y');
    assert("bun"@[0] == 'b');
    assert("pip"@[0] == 'p');
    assert("pipx"@[0] == 'p');
    assert("pipx"@[1] == 'i');
    assert("go"@[0] == 'g');
    assert("uv"@[0] == 'u');
}

} // verus!
