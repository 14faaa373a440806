//! The arguments of the programs that dump a process.

use crate::domain::export::opt_text;
use crate::domain::iat::ScanMethod;
use crate::domain::import::{lemma_views_push, views};
use crate::ui::input::{address_value, parse_base};
use vstd::prelude::*;
use vstd::string::*;

verus! {

/// The base a dump is moved to where none is named.
pub const DEFAULT_PREFERRED_BASE: u64 = 0x1_4000_0000;

/// How to dump a running process.
#[derive(Debug, PartialEq, Eq)]
pub struct DumpOptions {
    /// Where to write the fixed dump; `None` writes none.
    pub out: Option<String>,
    /// How to look for the IAT.
    pub method: ScanMethod,
    /// Whether every slot that code refers to has to resolve.
    pub validate: bool,
}

/// Dump options with the path as a character sequence.
#[verifier::ext_equal]
pub struct DumpOptionsModel {
    pub out: Option<Seq<char>>,
    pub method: ScanMethod,
    pub validate: bool,
}

impl View for DumpOptions {
    type V = DumpOptionsModel;

    open spec fn view(&self) -> DumpOptionsModel {
        DumpOptionsModel {
            out: opt_text(self.out),
            method: self.method,
            validate: self.validate,
        }
    }
}

/// How to start a program and dump it at its entry point.
#[derive(Debug, PartialEq, Eq)]
pub struct SpawnOptions {
    /// The program.
    pub exe: Option<String>,
    /// Where to write the dump.
    pub out: Option<String>,
    /// What the program is started with.
    pub target_args: Vec<String>,
    /// How to look for the IAT.
    pub method: ScanMethod,
    /// Whether every slot that code refers to has to resolve.
    pub validate: bool,
    /// The base to move the dump to.
    pub rebase: Option<u64>,
    /// Whether to write the dump as it is.
    pub dump_only: bool,
}

/// Spawn options with texts as character sequences.
#[verifier::ext_equal]
pub struct SpawnOptionsModel {
    pub exe: Option<Seq<char>>,
    pub out: Option<Seq<char>>,
    pub target_args: Seq<Seq<char>>,
    pub method: ScanMethod,
    pub validate: bool,
    pub rebase: Option<u64>,
    pub dump_only: bool,
}

impl View for SpawnOptions {
    type V = SpawnOptionsModel;

    open spec fn view(&self) -> SpawnOptionsModel {
        SpawnOptionsModel {
            exe: opt_text(self.exe),
            out: opt_text(self.out),
            target_args: views(self.target_args@),
            method: self.method,
            validate: self.validate,
            rebase: self.rebase,
            dump_only: self.dump_only,
        }
    }
}

/// The scan method that a word names.
pub open spec fn named_method(word: Seq<char>) -> Option<ScanMethod> {
    if word == "resolver"@ {
        Some(ScanMethod::Resolver)
    } else if word == "reflection"@ {
        Some(ScanMethod::Reflection)
    } else if word == "code"@ {
        Some(ScanMethod::CodeReference)
    } else {
        None
    }
}

/// The method that the word behind `--method`, at `i`, names, or what is wrong
/// with it.
pub open spec fn method_at(a: Seq<Seq<char>>, i: nat, hint: Seq<char>) -> Result<
    ScanMethod,
    Seq<char>,
> {
    if i >= a.len() {
        Err("--method needs a value"@)
    } else {
        match named_method(a[i as int]) {
            Some(m) => Ok(m),
            None => Err("unknown method '"@ + a[i as int] + "'"@ + hint),
        }
    }
}

/// What the arguments from number `i` on make of `o`.
pub open spec fn dump_options(a: Seq<Seq<char>>, i: nat, o: DumpOptionsModel) -> Result<
    DumpOptionsModel,
    Seq<char>,
>
    decreases a.len() - i,
{
    if i >= a.len() {
        Ok(o)
    } else {
        let word = a[i as int];
        if word == "--method"@ {
            match method_at(a, i + 1, " (resolver|reflection|code)"@) {
                Err(m) => Err(m),
                Ok(method) => dump_options(a, i + 2, DumpOptionsModel { method, ..o }),
            }
        } else if word == "--no-validate"@ {
            dump_options(a, i + 1, DumpOptionsModel { validate: false, ..o })
        } else if o.out is None {
            dump_options(a, i + 1, DumpOptionsModel { out: Some(word), ..o })
        } else {
            Err("unexpected argument '"@ + word + "'"@)
        }
    }
}

/// What the arguments from number `i` on make of `o`. Everything behind `--`
/// belongs to the program that is started.
pub open spec fn spawn_options(a: Seq<Seq<char>>, i: nat, o: SpawnOptionsModel) -> Result<
    SpawnOptionsModel,
    Seq<char>,
>
    decreases a.len() - i,
{
    if i >= a.len() {
        Ok(o)
    } else {
        let word = a[i as int];
        if word == "--"@ {
            Ok(SpawnOptionsModel { target_args: a.skip((i + 1) as int), ..o })
        } else if word == "--dump-only"@ {
            spawn_options(a, i + 1, SpawnOptionsModel { dump_only: true, ..o })
        } else if word == "--method"@ {
            match method_at(a, i + 1, ""@) {
                Err(m) => Err(m),
                Ok(method) => spawn_options(a, i + 2, SpawnOptionsModel { method, ..o }),
            }
        } else if word == "--no-validate"@ {
            spawn_options(a, i + 1, SpawnOptionsModel { validate: false, ..o })
        } else if word == "--rebase"@ {
            match base_at(a, i + 1) {
                Some(base) => spawn_options(
                    a,
                    i + 2,
                    SpawnOptionsModel { rebase: Some(base), ..o },
                ),
                None => spawn_options(
                    a,
                    i + 1,
                    SpawnOptionsModel { rebase: Some(DEFAULT_PREFERRED_BASE), ..o },
                ),
            }
        } else if o.exe is None {
            spawn_options(a, i + 1, SpawnOptionsModel { exe: Some(word), ..o })
        } else if o.out is None {
            spawn_options(a, i + 1, SpawnOptionsModel { out: Some(word), ..o })
        } else {
            Err("unexpected argument '"@ + word + "'"@)
        }
    }
}

/// The base that argument `i` names, if it is there and does.
pub open spec fn base_at(a: Seq<Seq<char>>, i: nat) -> Option<u64> {
    if i >= a.len() {
        None
    } else {
        match address_value(a[i as int], u64::MAX as nat) {
            Some(v) => Some(v as u64),
            None => None,
        }
    }
}

/// Without arguments nothing is written, and the slots are found through the
/// resolver.
pub open spec fn plain_dump() -> DumpOptionsModel {
    DumpOptionsModel { out: None, method: ScanMethod::Resolver, validate: true }
}

/// What is asked for before any argument is read.
pub open spec fn plain_spawn() -> SpawnOptionsModel {
    SpawnOptionsModel {
        exe: None,
        out: None,
        target_args: Seq::empty(),
        method: ScanMethod::Resolver,
        validate: true,
        rebase: None,
        dump_only: false,
    }
}

/// What the arguments of the program that starts what it dumps ask for.
pub open spec fn spawn_request(a: Seq<Seq<char>>) -> Result<SpawnOptionsModel, Seq<char>> {
    match spawn_options(a, 0, plain_spawn()) {
        Err(m) => Err(m),
        Ok(o) => if o.exe is Some && o.out is Some {
            Ok(o)
        } else {
            Err(
                "usage: spawn_dump <exe> <out> [--method ...] [--rebase] [-- args...]"@,
            )
        },
    }
}

fn unknown_method(word: &str, hint: &str) -> (m: String)
    ensures
        m@ == "unknown method '"@ + word@ + "'"@ + hint@,
{
    let mut m: String = "unknown method '".to_owned();
    m.append(word);
    m.append("'");
    m.append(hint);
    m
}

fn unexpected(word: &str) -> (m: String)
    ensures
        m@ == "unexpected argument '"@ + word@ + "'"@,
{
    let mut m: String = "unexpected argument '".to_owned();
    m.append(word);
    m.append("'");
    m
}

/// The method that argument `i` names.
fn read_method(args: &[String], i: usize, hint: &str) -> (r: Result<ScanMethod, String>)
    ensures
        match r {
            Ok(m) => method_at(views(args@), i as nat, hint@) == Ok::<ScanMethod, Seq<char>>(m),
            Err(m) => method_at(views(args@), i as nat, hint@) == Err::<ScanMethod, Seq<char>>(m@),
        },
{
    if i >= args.len() {
        return Err("--method needs a value".to_owned());
    }
    let word: &String = &args[i];
    assert(views(args@)[i as int] == word@);
    if *word == "resolver".to_owned() {
        Ok(ScanMethod::Resolver)
    } else if *word == "reflection".to_owned() {
        Ok(ScanMethod::Reflection)
    } else if *word == "code".to_owned() {
        Ok(ScanMethod::CodeReference)
    } else {
        Err(unknown_method(word.as_str(), hint))
    }
}

/// Read the arguments behind the process id.
pub fn parse_dump_args(args: &[String]) -> (r: Result<DumpOptions, String>)
    ensures
        match r {
            Ok(o) => dump_options(views(args@), 0, plain_dump()) == Ok::<
                DumpOptionsModel,
                Seq<char>,
            >(o@),
            Err(m) => dump_options(views(args@), 0, plain_dump()) == Err::<
                DumpOptionsModel,
                Seq<char>,
            >(m@),
        },
{
    let ghost a = views(args@);
    let mut o = DumpOptions { out: None, method: ScanMethod::Resolver, validate: true };
    let mut i: usize = 0;
    while i < args.len()
        invariant
            a == views(args@),
            i <= args.len(),
            dump_options(a, 0, plain_dump()) == dump_options(a, i as nat, o@),
        decreases args.len() - i,
    {
        let word: &String = &args[i];
        assert(a[i as int] == word@);
        if *word == "--method".to_owned() {
            match read_method(args, i + 1, " (resolver|reflection|code)") {
                Ok(m) => {
                    o.method = m;
                },
                Err(m) => {
                    return Err(m);
                },
            }
            i = i + 1;
        } else if *word == "--no-validate".to_owned() {
            o.validate = false;
        } else if o.out.is_none() {
            o.out = Some(word.clone());
        } else {
            return Err(unexpected(word.as_str()));
        }
        i = i + 1;
    }
    Ok(o)
}

/// The arguments from number `i` on.
fn rest_of(args: &[String], i: usize) -> (r: Vec<String>)
    requires
        i <= args@.len(),
    ensures
        views(r@) == views(args@).skip(i as int),
{
    let ghost all = views(args@).skip(i as int);
    let mut r: Vec<String> = Vec::new();
    let mut k: usize = i;
    assert(views(r@) =~= all.take(0));
    while k < args.len()
        invariant
            i <= k <= args.len(),
            all == views(args@).skip(i as int),
            views(r@) == all.take(k - i),
        decreases args.len() - k,
    {
        let s = args[k].clone();
        proof {
            lemma_views_push(r@, s);
            assert(all[k - i] == s@);
        }
        r.push(s);
        k = k + 1;
        assert(views(r@) =~= all.take(k - i));
    }
    assert(all.take(k - i) =~= all);
    r
}

/// Read the arguments of the program that starts what it dumps. In what it
/// returns `exe` and `out` are there.
pub fn parse_spawn_args(args: &[String]) -> (r: Result<SpawnOptions, String>)
    ensures
        match r {
            Ok(o) => spawn_request(views(args@)) == Ok::<SpawnOptionsModel, Seq<char>>(o@),
            Err(m) => spawn_request(views(args@)) == Err::<SpawnOptionsModel, Seq<char>>(m@),
        },
{
    let ghost a = views(args@);
    let mut o = SpawnOptions {
        exe: None,
        out: None,
        target_args: Vec::new(),
        method: ScanMethod::Resolver,
        validate: true,
        rebase: None,
        dump_only: false,
    };
    assert(o@ =~= plain_spawn());
    let mut i: usize = 0;
    let mut ended = false;
    while i < args.len() && !ended
        invariant
            a == views(args@),
            i <= args.len(),
            ended ==> i == args.len(),
            spawn_options(a, 0, plain_spawn()) == spawn_options(a, i as nat, o@),
        decreases args.len() - i,
    {
        let word: &String = &args[i];
        let ghost before = o@;
        assert(a[i as int] == word@);
        if *word == "--".to_owned() {
            o.target_args = rest_of(args, i + 1);
            ended = true;
            i = args.len();
        } else if *word == "--dump-only".to_owned() {
            o.dump_only = true;
            i = i + 1;
        } else if *word == "--method".to_owned() {
            match read_method(args, i + 1, "") {
                Ok(m) => {
                    o.method = m;
                },
                Err(m) => {
                    return Err(m);
                },
            }
            i = i + 2;
        } else if *word == "--no-validate".to_owned() {
            o.validate = false;
            i = i + 1;
        } else if *word == "--rebase".to_owned() {
            let mut base: Option<u64> = None;
            if i + 1 < args.len() {
                assert(a[i + 1] == args@[i + 1]@);
                base = parse_base(args[i + 1].as_str());
            }
            match base {
                Some(b) => {
                    o.rebase = Some(b);
                    i = i + 2;
                },
                None => {
                    o.rebase = Some(DEFAULT_PREFERRED_BASE);
                    i = i + 1;
                },
            }
        } else if o.exe.is_none() {
            o.exe = Some(word.clone());
            i = i + 1;
        } else if o.out.is_none() {
            o.out = Some(word.clone());
            i = i + 1;
        } else {
            return Err(unexpected(word.as_str()));
        }
    }
    if o.exe.is_none() || o.out.is_none() {
        return Err(
            "usage: spawn_dump <exe> <out> [--method ...] [--rebase] [-- args...]".to_owned(),
        );
    }
    Ok(o)
}

} // verus!
