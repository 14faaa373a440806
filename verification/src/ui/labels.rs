//! How values are named on screen.

use crate::domain::document::DocModel;
use crate::domain::iat::ScanMethod;
use crate::domain::relocation::{
    IMAGE_REL_BASED_ABSOLUTE, IMAGE_REL_BASED_DIR64, IMAGE_REL_BASED_HIGH, IMAGE_REL_BASED_HIGHADJ,
    IMAGE_REL_BASED_HIGHLOW, IMAGE_REL_BASED_LOW, IMAGE_REL_BASED_MIPS_JMPADDR,
};
use crate::domain::types::Machine;
use crate::io::pe::writer::{
    file_plan, full_directories, initial_plan, plan_exports, plan_imports, plan_load_config,
    plan_relocations, plan_resources, plan_tls, FilePlan,
};
use crate::text::{dec_text, push_dec};
use crate::ui::format::{push_wide_hex, wide_hex};
use vstd::prelude::*;
use vstd::string::*;

verus! {

/// The name of a COFF machine.
pub open spec fn machine_label(m: Machine) -> Seq<char> {
    match m {
        Machine::I386 => "I386"@,
        Machine::Amd64 => "AMD64"@,
        Machine::Arm64 => "ARM64"@,
        Machine::Unknown(v) => "Other ("@ + wide_hex(v as nat, 4) + ")"@,
    }
}

/// Human-readable COFF machine name.
pub fn machine_name(machine: Machine) -> (r: String)
    ensures
        r@ == machine_label(machine),
{
    match machine {
        Machine::I386 => "I386".to_owned(),
        Machine::Amd64 => "AMD64".to_owned(),
        Machine::Arm64 => "ARM64".to_owned(),
        Machine::Unknown(v) => {
            let mut s: String = "Other (".to_owned();
            push_wide_hex(&mut s, v as u64, 4);
            s.append(")");
            s
        },
    }
}

/// The name of a relocation type, where it has one.
pub open spec fn reloc_name(t: u8) -> Option<Seq<char>> {
    if t == IMAGE_REL_BASED_ABSOLUTE {
        Some("ABSOLUTE"@)
    } else if t == IMAGE_REL_BASED_HIGH {
        Some("HIGH"@)
    } else if t == IMAGE_REL_BASED_LOW {
        Some("LOW"@)
    } else if t == IMAGE_REL_BASED_HIGHLOW {
        Some("HIGHLOW"@)
    } else if t == IMAGE_REL_BASED_HIGHADJ {
        Some("HIGHADJ"@)
    } else if t == IMAGE_REL_BASED_MIPS_JMPADDR {
        Some("MIPS_JMPADDR"@)
    } else if t == IMAGE_REL_BASED_DIR64 {
        Some("DIR64"@)
    } else {
        None
    }
}

/// A relocation type as it is shown.
pub open spec fn reloc_label(t: u8) -> Seq<char> {
    match reloc_name(t) {
        Some(name) => dec_text(t as nat) + " "@ + name,
        None => "TYPE_"@ + dec_text(t as nat),
    }
}

/// Human-readable name for a relocation entry's `IMAGE_REL_BASED_*` type.
pub fn reloc_type_name(t: u8) -> (r: String)
    ensures
        r@ == reloc_label(t),
{
    let name: &str = if t == IMAGE_REL_BASED_ABSOLUTE {
        "ABSOLUTE"
    } else if t == IMAGE_REL_BASED_HIGH {
        "HIGH"
    } else if t == IMAGE_REL_BASED_LOW {
        "LOW"
    } else if t == IMAGE_REL_BASED_HIGHLOW {
        "HIGHLOW"
    } else if t == IMAGE_REL_BASED_HIGHADJ {
        "HIGHADJ"
    } else if t == IMAGE_REL_BASED_MIPS_JMPADDR {
        "MIPS_JMPADDR"
    } else if t == IMAGE_REL_BASED_DIR64 {
        "DIR64"
    } else {
        let mut s: String = "TYPE_".to_owned();
        push_dec(&mut s, t as u64);
        return s;
    };
    let mut s: String = String::new();
    push_dec(&mut s, t as u64);
    s.append(" ");
    s.append(name);
    assert(s@ =~= reloc_label(t));
    s
}

/// The directories that the writer renders anew: exports, imports, resources,
/// base relocations, TLS, load configuration and the IAT.
pub open spec fn writer_managed(idx: int) -> bool {
    idx == 0 || idx == 1 || idx == 2 || idx == 5 || idx == 9 || idx == 10 || idx == 12
}

/// `true` for data directories the writer re-renders from the rich import /
/// export / resource / reloc / TLS / load-config forms on save (edits would be
/// overwritten, so they are shown read-only). The remaining directories are
/// written verbatim and are freely editable.
pub fn is_writer_managed(idx: usize) -> (r: bool)
    ensures
        r == writer_managed(idx as int),
{
    idx == 0 || idx == 1 || idx == 2 || idx == 5 || idx == 9 || idx == 10 || idx == 12
}

proof fn lemma_imports_keep(d: DocModel, p: FilePlan, i: int)
    requires
        !writer_managed(i),
        0 <= i < 16 <= p.dirs.len(),
    ensures
        plan_imports(d, p) matches Ok(q) ==> q.dirs[i] == p.dirs[i],
        plan_imports(d, p) matches Ok(q) ==> q.dirs.len() == p.dirs.len(),
{
}

proof fn lemma_exports_keep(d: DocModel, p: FilePlan, i: int)
    requires
        !writer_managed(i),
        0 <= i < 16 <= p.dirs.len(),
    ensures
        plan_exports(d, p) matches Ok(q) ==> q.dirs[i] == p.dirs[i],
        plan_exports(d, p) matches Ok(q) ==> q.dirs.len() == p.dirs.len(),
{
}

proof fn lemma_resources_keep(d: DocModel, p: FilePlan, i: int)
    requires
        !writer_managed(i),
        0 <= i < 16 <= p.dirs.len(),
    ensures
        plan_resources(d, p) matches Ok(q) ==> q.dirs[i] == p.dirs[i],
        plan_resources(d, p) matches Ok(q) ==> q.dirs.len() == p.dirs.len(),
{
}

proof fn lemma_rest_keeps(d: DocModel, p: FilePlan, i: int)
    requires
        !writer_managed(i),
        0 <= i < 16 <= p.dirs.len(),
    ensures
        plan_load_config(d, plan_tls(d, plan_relocations(d, p))).dirs[i] == p.dirs[i],
{
    let a = plan_relocations(d, p);
    assert(a.dirs[i] == p.dirs[i] && a.dirs.len() == p.dirs.len());
    let b = plan_tls(d, a);
    assert(b.dirs[i] == p.dirs[i] && b.dirs.len() == p.dirs.len());
}

/// A directory that the writer does not manage is written as it stands in the
/// document.
pub proof fn other_directories_are_verbatim(d: DocModel, i: int)
    requires
        file_plan(d) is Ok,
        0 <= i < 16,
        !writer_managed(i),
    ensures
        file_plan(d)->Ok_0.dirs[i] == full_directories(d.data_directories)[i],
{
    let p0 = initial_plan(d);
    assert(p0.dirs.len() >= 16);
    lemma_imports_keep(d, p0, i);
    let p1 = plan_imports(d, p0)->Ok_0;
    lemma_exports_keep(d, p1, i);
    let p2 = plan_exports(d, p1)->Ok_0;
    lemma_resources_keep(d, p2, i);
    let p3 = plan_resources(d, p2)->Ok_0;
    lemma_rest_keeps(d, p3, i);
}

/// Human-readable label for a scan method.
pub fn scan_method_name(m: ScanMethod) -> (r: &'static str)
    ensures
        r@ == match m {
            ScanMethod::Resolver => "Resolver"@,
            ScanMethod::CodeReference => "Code references"@,
            ScanMethod::Reflection => "Reflection"@,
        },
{
    match m {
        ScanMethod::Resolver => "Resolver",
        ScanMethod::CodeReference => "Code references",
        ScanMethod::Reflection => "Reflection",
    }
}

} // verus!
