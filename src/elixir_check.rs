//! A report on whether the Erlang/OTP and Elixir runtimes are present, and
//! which guarantees they bring. Detecting the runtimes is left to the caller.

use vstd::prelude::*;
use crate::text::strings;

verus! {

/// What was found about the Erlang/OTP and Elixir runtimes.
pub struct ElixirCheck {
    pub has_erlang: bool,
    pub has_elixir: bool,
    pub otp_version: Option<String>,
}

/// `lines` joined with a line break between each two.
pub open spec fn join_lines(lines: Seq<Seq<char>>) -> Seq<char>
    decreases lines.len(),
{
    if lines.len() == 0 {
        seq![]
    } else if lines.len() == 1 {
        lines[0]
    } else {
        join_lines(lines.drop_last()) + "\n"@ + lines.last()
    }
}

/// The guarantee lines for what was found: three for Erlang/OTP, three for
/// Elixir, then the OTP version when it is known.
pub open spec fn guarantee_lines(
    has_erlang: bool,
    has_elixir: bool,
    otp_version: Option<Seq<char>>,
) -> Seq<Seq<char>> {
    (if has_erlang {
        seq![
            "✓ Erlang/OTP runtime available"@,
            "✓ Fault tolerance via supervisor trees"@,
            "✓ Hot code reloading support"@,
        ]
    } else {
        seq![]
    }) + (if has_elixir {
        seq![
            "✓ Elixir runtime available"@,
            "✓ Immutable data structures"@,
            "✓ Pattern matching enabled"@,
        ]
    } else {
        seq![]
    }) + match otp_version {
        Some(v) => seq!["✓ OTP Version: "@ + v],
        None => seq![],
    }
}

/// The guarantees text: a fixed note when neither runtime was found, else the
/// guarantee lines one per line.
pub open spec fn guarantees_text(
    has_erlang: bool,
    has_elixir: bool,
    otp_version: Option<Seq<char>>,
) -> Seq<char> {
    if !has_erlang && !has_elixir {
        "Erlang/OTP and Elixir not detected (optional)"@
    } else {
        join_lines(guarantee_lines(has_erlang, has_elixir, otp_version))
    }
}

/// The OTP version as plain characters.
pub open spec fn version_view(v: Option<String>) -> Option<Seq<char>> {
    match v {
        Some(s) => Some(s@),
        None => None,
    }
}

/// Joins `lines` with a line break between each two.
fn join_with_breaks(lines: &Vec<String>) -> (r: String)
    ensures
        r@ == join_lines(strings(lines@)),
{
    let mut out = String::new();
    let mut i: usize = 0;
    while i < lines.len()
        invariant
            i <= lines@.len(),
            out@ == join_lines(strings(lines@).subrange(0, i as int)),
        decreases lines@.len() - i,
    {
        proof {
            let next = strings(lines@).subrange(0, i as int + 1);
            assert(next.drop_last() =~= strings(lines@).subrange(0, i as int));
        }
        if i > 0 {
            out.append("\n");
        }
        out.append(lines[i].as_str());
        proof {
            assert(i == 0 ==> out@ =~= strings(lines@).subrange(0, 1)[0]);
        }
        i = i + 1;
    }
    proof {
        assert(strings(lines@).subrange(0, i as int) =~= strings(lines@));
    }
    out
}

impl ElixirCheck {
    /// A report over the given findings.
    pub fn new(has_erlang: bool, has_elixir: bool, otp_version: Option<String>) -> (r: Self)
        ensures
            r.has_erlang == has_erlang,
            r.has_elixir == has_elixir,
            r.otp_version == otp_version,
    {
        ElixirCheck { has_erlang, has_elixir, otp_version }
    }

    /// The guarantees that the runtimes found provide; this always succeeds.
    pub fn verify_guarantees(&self) -> (r: Result<String, String>)
        ensures
            r is Ok,
            r->Ok_0@ == guarantees_text(
                self.has_erlang,
                self.has_elixir,
                version_view(self.otp_version),
            ),
    {
        if !self.has_erlang && !self.has_elixir {
            return Ok(String::from_str("Erlang/OTP and Elixir not detected (optional)"));
        }
        let mut guarantees: Vec<String> = Vec::new();
        if self.has_erlang {
            guarantees.push(String::from_str("✓ Erlang/OTP runtime available"));
            guarantees.push(String::from_str("✓ Fault tolerance via supervisor trees"));
            guarantees.push(String::from_str("✓ Hot code reloading support"));
        }
        if self.has_elixir {
            guarantees.push(String::from_str("✓ Elixir runtime available"));
            guarantees.push(String::from_str("✓ Immutable data structures"));
            guarantees.push(String::from_str("✓ Pattern matching enabled"));
        }
        match &self.otp_version {
            Some(version) => {
                let mut line = String::from_str("✓ OTP Version: ");
                line.append(version.as_str());
                guarantees.push(line);
            },
            None => {},
        }
        proof {
            assert(strings(guarantees@) =~= guarantee_lines(
                self.has_erlang,
                self.has_elixir,
                version_view(self.otp_version),
            ));
        }
        Ok(join_with_breaks(&guarantees))
    }

    /// The report under an "Elixir Check" heading.
    pub fn display(&self) -> (r: String)
        ensures
            r@ == "Elixir Check:\n"@ + guarantees_text(
                self.has_erlang,
                self.has_elixir,
                version_view(self.otp_version),
            ),
    {
        match self.verify_guarantees() {
            Ok(guarantees) => {
                let mut out = String::from_str("Elixir Check:\n");
                out.append(guarantees.as_str());
                out
            },
            Err(e) => {
                let mut out = String::from_str("Elixir Check: ");
                out.append(e.as_str());
                out
            },
        }
    }
}

/// The report over the given findings.
pub fn run_elixir_check(has_erlang: bool, has_elixir: bool, otp_version: Option<String>) -> (r:
    ElixirCheck)
    ensures
        r.has_erlang == has_erlang,
        r.has_elixir == has_elixir,
        r.otp_version == otp_version,
{
    ElixirCheck::new(has_erlang, has_elixir, otp_version)
}

} // verus!
