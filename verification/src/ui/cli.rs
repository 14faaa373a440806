//! The command line: what the arguments ask for, and the edits.

use crate::api::editor::{added_section, PeEditor};
use crate::api::importer::{imports_with, ImportTableEditor};
use crate::bytes::{zero_bytes, zeros};
use crate::domain::document::{data_section_flags, DocModel, PeDocument};
use crate::domain::import::{views, ImportFunction, ImportFunctionModel};
use crate::domain::optional::with_address_of_entry_point;
use crate::domain::section::{
    SectionId, SectionModel, IMAGE_SCN_CNT_INITIALIZED_DATA, IMAGE_SCN_MEM_READ,
    IMAGE_SCN_MEM_WRITE,
};
use crate::domain::types::Rva;
use crate::error::{failure, PeErrorModel, PeResult};
use crate::feature::section_rebuild::{
    merge_sections, merged, rebuild_section_table, rebuilt_sections,
};
use crate::ui::input::{
    address_value, name_bytes, name_field, number, parse_count, parse_rva, trimmed,
};
use vstd::prelude::*;
use vstd::string::*;

verus! {

/// A command with its arguments.
#[derive(Debug, PartialEq, Eq)]
pub enum Command {
    Show { path: String },
    SetEntry { path: String, rva: u32, out: String },
    AddSection { path: String, name: String, size: usize, out: String },
    AddImport { path: String, module: String, func: String, out: String },
    MergeSections { path: String, start: usize, end: usize, out: String },
    RebuildSections { path: String, out: String },
}

/// A command with its texts as character sequences.
pub enum CommandModel {
    Show { path: Seq<char> },
    SetEntry { path: Seq<char>, rva: u32, out: Seq<char> },
    AddSection { path: Seq<char>, name: Seq<char>, size: usize, out: Seq<char> },
    AddImport { path: Seq<char>, module: Seq<char>, func: Seq<char>, out: Seq<char> },
    MergeSections { path: Seq<char>, start: usize, end: usize, out: Seq<char> },
    RebuildSections { path: Seq<char>, out: Seq<char> },
}

impl View for Command {
    type V = CommandModel;

    open spec fn view(&self) -> CommandModel {
        match self {
            Command::Show { path } => CommandModel::Show { path: path@ },
            Command::SetEntry { path, rva, out } => CommandModel::SetEntry {
                path: path@,
                rva: *rva,
                out: out@,
            },
            Command::AddSection { path, name, size, out } => CommandModel::AddSection {
                path: path@,
                name: name@,
                size: *size,
                out: out@,
            },
            Command::AddImport { path, module, func, out } => CommandModel::AddImport {
                path: path@,
                module: module@,
                func: func@,
                out: out@,
            },
            Command::MergeSections { path, start, end, out } => CommandModel::MergeSections {
                path: path@,
                start: *start,
                end: *end,
                out: out@,
            },
            Command::RebuildSections { path, out } => CommandModel::RebuildSections {
                path: path@,
                out: out@,
            },
        }
    }
}

/// What the arguments ask for.
#[derive(Debug, PartialEq, Eq)]
pub enum Request {
    /// There are none: show how to use the program.
    Usage,
    /// No command has that name.
    Unknown(String),
    /// The arguments of a command are not in order.
    Bad(String),
    Run(Command),
}

/// What the arguments ask for, with texts as character sequences.
pub enum RequestModel {
    Usage,
    Unknown(Seq<char>),
    Bad(Seq<char>),
    Run(CommandModel),
}

impl View for Request {
    type V = RequestModel;

    open spec fn view(&self) -> RequestModel {
        match self {
            Request::Usage => RequestModel::Usage,
            Request::Unknown(s) => RequestModel::Unknown(s@),
            Request::Bad(s) => RequestModel::Bad(s@),
            Request::Run(c) => RequestModel::Run(c@),
        }
    }
}

/// How the arguments of a command are called.
pub open spec fn argument_names(command: Seq<char>) -> Option<Seq<Seq<char>>> {
    if command == "set-entry"@ {
        Some(seq!["<file>"@, "<rva>"@, "<out>"@])
    } else if command == "add-section"@ {
        Some(seq!["<file>"@, "<name>"@, "<size>"@, "<out>"@])
    } else if command == "add-import"@ {
        Some(seq!["<file>"@, "<module>"@, "<func>"@, "<out>"@])
    } else if command == "merge-sections"@ {
        Some(seq!["<file>"@, "<start>"@, "<end>"@, "<out>"@])
    } else if command == "rebuild-sections"@ {
        Some(seq!["<file>"@, "<out>"@])
    } else {
        None
    }
}

/// What a command with all its arguments asks for.
pub open spec fn complete_request(a: Seq<Seq<char>>) -> RequestModel {
    let max = usize::MAX as nat;
    if a[0] == "set-entry"@ {
        match address_value(a[2], u32::MAX as nat) {
            Some(v) => RequestModel::Run(
                CommandModel::SetEntry { path: a[1], rva: v as u32, out: a[3] },
            ),
            None => RequestModel::Bad("invalid rva '"@ + trimmed(a[2]) + "'"@),
        }
    } else if a[0] == "add-section"@ {
        match number(a[3], 10, max) {
            Some(v) => RequestModel::Run(
                CommandModel::AddSection { path: a[1], name: a[2], size: v as usize, out: a[4] },
            ),
            None => RequestModel::Bad("size must be an integer"@),
        }
    } else if a[0] == "add-import"@ {
        RequestModel::Run(
            CommandModel::AddImport { path: a[1], module: a[2], func: a[3], out: a[4] },
        )
    } else if a[0] == "merge-sections"@ {
        match (number(a[2], 10, max), number(a[3], 10, max)) {
            (Some(s), Some(e)) => RequestModel::Run(
                CommandModel::MergeSections {
                    path: a[1],
                    start: s as usize,
                    end: e as usize,
                    out: a[4],
                },
            ),
            (None, _) => RequestModel::Bad("start must be an integer"@),
            (_, None) => RequestModel::Bad("end must be an integer"@),
        }
    } else {
        RequestModel::Run(CommandModel::RebuildSections { path: a[1], out: a[2] })
    }
}

/// What the arguments ask for.
pub open spec fn request(a: Seq<Seq<char>>) -> RequestModel {
    if a.len() == 0 {
        RequestModel::Usage
    } else if a[0] == "show"@ {
        if a.len() < 2 {
            RequestModel::Bad("usage: pe-edit show <file>"@)
        } else {
            RequestModel::Run(CommandModel::Show { path: a[1] })
        }
    } else {
        match argument_names(a[0]) {
            None => RequestModel::Unknown(a[0]),
            Some(names) => if a.len() <= names.len() {
                RequestModel::Bad("missing "@ + names[a.len() - 1])
            } else {
                complete_request(a)
            },
        }
    }
}

/// The complaint about the first argument that is not there.
fn missing_argument(names: &[&'static str], have: usize) -> (r: Request)
    requires
        0 < have <= names@.len(),
    ensures
        r@ == RequestModel::Bad("missing "@ + names@[have - 1]@),
{
    let mut m: String = "missing ".to_owned();
    m.append(names[have - 1]);
    Request::Bad(m)
}

fn read_set_entry(args: &[String]) -> (r: Request)
    requires
        args@.len() > 0,
        args@[0]@ == "set-entry"@,
    ensures
        r@ == request(views(args@)),
{
    let ghost a = views(args@);
    proof {
        lemma_command_names();
        assert(a[0] == args@[0]@);
    }
    if args.len() < 4 {
        let names: [&'static str; 3] = ["<file>", "<rva>", "<out>"];
        return missing_argument(&names, args.len());
    }
    assert(a[1] == args@[1]@ && a[2] == args@[2]@ && a[3] == args@[3]@);
    match parse_rva(args[2].as_str()) {
        Ok(rva) => Request::Run(
            Command::SetEntry { path: args[1].clone(), rva, out: args[3].clone() },
        ),
        Err(m) => Request::Bad(m),
    }
}

fn read_add_section(args: &[String]) -> (r: Request)
    requires
        args@.len() > 0,
        args@[0]@ == "add-section"@,
    ensures
        r@ == request(views(args@)),
{
    let ghost a = views(args@);
    proof {
        lemma_command_names();
        assert(a[0] == args@[0]@);
    }
    if args.len() < 5 {
        let names: [&'static str; 4] = ["<file>", "<name>", "<size>", "<out>"];
        return missing_argument(&names, args.len());
    }
    assert(a[1] == args@[1]@ && a[2] == args@[2]@ && a[3] == args@[3]@ && a[4] == args@[4]@);
    match parse_count(args[3].as_str()) {
        Some(size) => Request::Run(
            Command::AddSection {
                path: args[1].clone(),
                name: args[2].clone(),
                size,
                out: args[4].clone(),
            },
        ),
        None => Request::Bad("size must be an integer".to_owned()),
    }
}

fn read_add_import(args: &[String]) -> (r: Request)
    requires
        args@.len() > 0,
        args@[0]@ == "add-import"@,
    ensures
        r@ == request(views(args@)),
{
    let ghost a = views(args@);
    proof {
        lemma_command_names();
        assert(a[0] == args@[0]@);
    }
    if args.len() < 5 {
        let names: [&'static str; 4] = ["<file>", "<module>", "<func>", "<out>"];
        return missing_argument(&names, args.len());
    }
    assert(a[1] == args@[1]@ && a[2] == args@[2]@ && a[3] == args@[3]@ && a[4] == args@[4]@);
    Request::Run(
        Command::AddImport {
            path: args[1].clone(),
            module: args[2].clone(),
            func: args[3].clone(),
            out: args[4].clone(),
        },
    )
}

fn read_merge_sections(args: &[String]) -> (r: Request)
    requires
        args@.len() > 0,
        args@[0]@ == "merge-sections"@,
    ensures
        r@ == request(views(args@)),
{
    let ghost a = views(args@);
    proof {
        lemma_command_names();
        assert(a[0] == args@[0]@);
    }
    if args.len() < 5 {
        let names: [&'static str; 4] = ["<file>", "<start>", "<end>", "<out>"];
        return missing_argument(&names, args.len());
    }
    assert(a[1] == args@[1]@ && a[2] == args@[2]@ && a[3] == args@[3]@ && a[4] == args@[4]@);
    let start: usize = match parse_count(args[2].as_str()) {
        Some(v) => v,
        None => {
            return Request::Bad("start must be an integer".to_owned());
        },
    };
    let end: usize = match parse_count(args[3].as_str()) {
        Some(v) => v,
        None => {
            return Request::Bad("end must be an integer".to_owned());
        },
    };
    Request::Run(
        Command::MergeSections { path: args[1].clone(), start, end, out: args[4].clone() },
    )
}

fn read_rebuild_sections(args: &[String]) -> (r: Request)
    requires
        args@.len() > 0,
        args@[0]@ == "rebuild-sections"@,
    ensures
        r@ == request(views(args@)),
{
    let ghost a = views(args@);
    proof {
        lemma_command_names();
        assert(a[0] == args@[0]@);
    }
    if args.len() < 3 {
        let names: [&'static str; 2] = ["<file>", "<out>"];
        return missing_argument(&names, args.len());
    }
    assert(a[1] == args@[1]@ && a[2] == args@[2]@);
    Request::Run(Command::RebuildSections { path: args[1].clone(), out: args[2].clone() })
}

/// The commands have different names.
proof fn lemma_command_names()
    ensures
        "show"@ != "set-entry"@,
        "show"@ != "add-section"@,
        "show"@ != "add-import"@,
        "show"@ != "merge-sections"@,
        "show"@ != "rebuild-sections"@,
        "set-entry"@ != "add-section"@,
        "set-entry"@ != "add-import"@,
        "set-entry"@ != "merge-sections"@,
        "set-entry"@ != "rebuild-sections"@,
        "add-section"@ != "add-import"@,
        "add-section"@ != "merge-sections"@,
        "add-section"@ != "rebuild-sections"@,
        "add-import"@ != "merge-sections"@,
        "add-import"@ != "rebuild-sections"@,
        "merge-sections"@ != "rebuild-sections"@,
{
    reveal_strlit("show");
    reveal_strlit("set-entry");
    reveal_strlit("add-section");
    reveal_strlit("add-import");
    reveal_strlit("merge-sections");
    reveal_strlit("rebuild-sections");
    assert("show"@.len() == 4);
    assert("set-entry"@.len() == 9);
    assert("add-section"@.len() == 11);
    assert("add-import"@.len() == 10);
    assert("merge-sections"@.len() == 14);
    assert("rebuild-sections"@.len() == 16);
}

/// What the arguments (without the program's name) ask for.
pub fn parse_args(args: &[String]) -> (r: Request)
    ensures
        r@ == request(views(args@)),
{
    if args.len() == 0 {
        return Request::Usage;
    }
    let ghost a = views(args@);
    assert(a[0] == args@[0]@);
    let command: &String = &args[0];
    if *command == "show".to_owned() {
        if args.len() < 2 {
            return Request::Bad("usage: pe-edit show <file>".to_owned());
        }
        assert(a[1] == args@[1]@);
        return Request::Run(Command::Show { path: args[1].clone() });
    }
    if *command == "set-entry".to_owned() {
        read_set_entry(args)
    } else if *command == "add-section".to_owned() {
        read_add_section(args)
    } else if *command == "add-import".to_owned() {
        read_add_import(args)
    } else if *command == "merge-sections".to_owned() {
        read_merge_sections(args)
    } else if *command == "rebuild-sections".to_owned() {
        read_rebuild_sections(args)
    } else {
        Request::Unknown(command.clone())
    }
}

/// Whether `s` is the section of zeros that is appended under a name.
pub open spec fn is_named_section(d: DocModel, s: SectionModel, name: Seq<char>, size: nat) -> bool {
    &&& s.header.name@ == name_field(name)
    &&& s == added_section(d, s.header.name, data_section_flags(), zeros(size))
}

/// Append a data section of `size` zero bytes.
pub fn add_named_section(doc: &mut PeDocument, name: &str, size: usize) -> (r: PeResult<SectionId>)
    ensures
        r is Ok,
        r->Ok_0 == old(doc)@.sections.len(),
        final(doc)@.sections.len() == old(doc)@.sections.len() + 1,
        is_named_section(old(doc)@, final(doc)@.sections.last(), name@, size as nat),
        final(doc)@ == (DocModel {
            sections: old(doc)@.sections.push(final(doc)@.sections.last()),
            ..old(doc)@
        }),
{
    let flags: u32 = IMAGE_SCN_CNT_INITIALIZED_DATA | IMAGE_SCN_MEM_READ | IMAGE_SCN_MEM_WRITE;
    doc.add_section(name_bytes(name), flags, zero_bytes(size))
}

/// Whether `after` and `error` are what a command leaves of a document.
pub open spec fn command_leaves(
    d: DocModel,
    c: CommandModel,
    after: DocModel,
    error: Option<PeErrorModel>,
) -> bool {
    match c {
        CommandModel::Show { path: _ } => after == d && error is None,
        CommandModel::SetEntry { path: _, rva, out: _ } => after == (DocModel {
            optional: with_address_of_entry_point(d.optional, Rva(rva)),
            ..d
        }) && error is None,
        CommandModel::AddSection { path: _, name, size, out: _ } => {
            &&& after.sections.len() == d.sections.len() + 1
            &&& is_named_section(d, after.sections.last(), name, size as nat)
            &&& after == (DocModel { sections: d.sections.push(after.sections.last()), ..d })
            &&& error is None
        },
        CommandModel::AddImport { path: _, module, func, out: _ } => if module.len() == 0 {
            after == d && error == Some(
                PeErrorModel::InvalidArgument("add_import: empty module name"@),
            )
        } else {
            after == (DocModel {
                imports: imports_with(
                    d.imports,
                    module,
                    seq![ImportFunctionModel::Name(0, func)],
                ),
                ..d
            }) && error is None
        },
        CommandModel::MergeSections { path: _, start, end, out: _ } => (after, error) == merged(
            d,
            start as int,
            end as int,
        ),
        CommandModel::RebuildSections { path: _, out: _ } => (after, error) == rebuilt_sections(d),
    }
}

/// Apply the edit of a command.
pub fn apply(doc: &mut PeDocument, command: &Command) -> (r: PeResult<()>)
    ensures
        command_leaves(old(doc)@, command@, final(doc)@, failure(r)),
{
    match command {
        Command::Show { .. } => Ok(()),
        Command::SetEntry { rva, .. } => {
            doc.optional.set_address_of_entry_point(Rva(*rva));
            Ok(())
        },
        Command::AddSection { name, size, .. } => match add_named_section(
            doc,
            name.as_str(),
            *size,
        ) {
            Ok(_) => Ok(()),
            Err(e) => Err(e),
        },
        Command::AddImport { module, func, .. } => {
            let mut functions: Vec<ImportFunction> = Vec::new();
            functions.push(ImportFunction::by_name(func.as_str()));
            assert(views(functions@) =~= seq![ImportFunctionModel::Name(0, func@)]);
            doc.add_import(module.as_str(), functions.as_slice())
        },
        Command::MergeSections { start, end, .. } => merge_sections(doc, *start, *end),
        Command::RebuildSections { .. } => rebuild_section_table(doc),
    }
}

} // verus!
