//! Shell profiles for interactive sessions, and the optional sandbox setup.
use vstd::prelude::*;
use crate::exec::texts;

verus! {

/// A program and its arguments.
#[derive(Debug)]
pub struct ShellProfile {
    pub program: String,
    pub args: Vec<String>,
}

/// ASCII lowercase of one character; other characters are kept.
pub open spec fn lower_char(c: char) -> char {
    if 'A' <= c && c <= 'Z' {
        ((c as u32) + 32) as char
    } else {
        c
    }
}

/// ASCII lowercase of a text.
pub open spec fn ascii_lower(s: Seq<char>) -> Seq<char> {
    s.map_values(|c: char| lower_char(c))
}

/// The ASCII lowercase of `s`.
pub fn to_ascii_lower(s: &str) -> (r: String)
    ensures
        r@ == ascii_lower(s@),
{
    let cs = crate::text::chars_of(s);
    let mut out = String::new();
    let mut i: usize = 0;
    while i < cs.len()
        invariant
            i <= cs@.len(),
            cs@ == s@,
            out@ == ascii_lower(s@).take(i as int),
        decreases cs@.len() - i,
    {
        let c = cs[i];
        let l = if 'A' <= c && c <= 'Z' {
            ((c as u32 + 32) as u8) as char
        } else {
            c
        };
        proof {
            if 'A' <= c && c <= 'Z' {
                assert(((c as u32 + 32) as u8) as char == lower_char(c));
            }
        }
        crate::text::push_char(&mut out, l);
        i += 1;
        assert(out@ =~= ascii_lower(s@).take(i as int));
    }
    assert(ascii_lower(s@).take(i as int) =~= ascii_lower(s@));
    out
}

/// The program and arguments a profile name resolves to, by its lowercase
/// form: `posix`, `zsh` and `busybox` are named profiles; any other name,
/// and no name, is the default: `/bin/bash -li` where bash is installed,
/// else `/bin/sh -i`.
pub open spec fn profile_spec(name: Option<Seq<char>>, bash_installed: bool) -> (Seq<char>, Seq<Seq<char>>) {
    let n = match name {
        Some(s) => ascii_lower(s),
        None => "default"@,
    };
    if n == "posix"@ {
        ("/bin/sh"@, seq!["-i"@])
    } else if n == "zsh"@ {
        ("/bin/zsh"@, seq!["-li"@])
    } else if n == "busybox"@ {
        ("/bin/busybox"@, seq!["sh"@, "-i"@])
    } else if bash_installed {
        ("/bin/bash"@, seq!["-li"@])
    } else {
        ("/bin/sh"@, seq!["-i"@])
    }
}

fn profile_of(program: &str, args: Vec<String>) -> (r: ShellProfile)
    ensures
        r.program@ == program@,
        r.args == args,
{
    ShellProfile { program: String::from_str(program), args }
}

/// Resolves a profile name; `bash_installed` tells whether `/bin/bash`
/// exists on this host.
pub fn resolve_profile(name: Option<&str>, bash_installed: bool) -> (r: ShellProfile)
    ensures
        r.program@ == profile_spec(
            match name { Some(s) => Some(s@), None => None },
            bash_installed,
        ).0,
        texts(r.args@) == profile_spec(
            match name { Some(s) => Some(s@), None => None },
            bash_installed,
        ).1,
{
    let n = match name {
        Some(s) => to_ascii_lower(s),
        None => String::from_str("default"),
    };
    let r = if n == String::from_str("posix") {
        profile_of("/bin/sh", vec![String::from_str("-i")])
    } else if n == String::from_str("zsh") {
        profile_of("/bin/zsh", vec![String::from_str("-li")])
    } else if n == String::from_str("busybox") {
        profile_of("/bin/busybox", vec![String::from_str("sh"), String::from_str("-i")])
    } else if bash_installed {
        profile_of("/bin/bash", vec![String::from_str("-li")])
    } else {
        profile_of("/bin/sh", vec![String::from_str("-i")])
    };
    assert(texts(r.args@) =~= profile_spec(
        match name { Some(s) => Some(s@), None => None },
        bash_installed,
    ).1);
    r
}

/// Prepares the namespace sandbox when `enable` is set. This build leaves
/// the host as it is in either case, and always succeeds.
pub fn setup_if_enabled(enable: bool) -> (r: Result<(), String>)
    ensures
        r is Ok,
{
    Ok(())
}

} // verus!
