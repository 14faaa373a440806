//! Which sections and directories a document is written with.

use crate::domain::data_directory::{empty_directory, DataDirectoryIndex};
use crate::domain::document::DocModel;
use crate::domain::section::SectionModel;
use crate::io::pe::decode::{
    enriched, exports_of, imports_of, load_config_in, relocations_of, resources_of, tls_in,
};
use crate::io::pe::laws::roundtrip::{
    lemma_grows, lemma_prefixes, plan1, plan2, plan3, plan4, plan5, plan6,
};
use crate::io::pe::writer::{
    exports_match, file_plan, full_directories, imports_match, initial_plan, plan_exports,
    plan_imports, with_dir,
};
use vstd::prelude::*;

verus! {

/// A document whose tables are the ones that stand in its image is written with
/// its own sections and directories and nothing more. A directory whose table is
/// empty must be empty itself: it would be cleared.
pub proof fn untouched_documents_keep_their_sections(d: DocModel)
    requires
        d == enriched(d),
        d.data_directories.len() >= 16,
        d.imports.len() == 0 ==> d.data_directories[1] == empty_directory()
            && d.data_directories[12] == empty_directory(),
        d.exports is None ==> d.data_directories[0] == empty_directory(),
        d.exports matches Some(t) ==> t.symbols.len() > 0,
    ensures
        file_plan(d) is Ok,
        file_plan(d)->Ok_0.sections == d.sections,
        file_plan(d)->Ok_0.dirs == d.data_directories,
{
    let q = initial_plan(d);
    assert(full_directories(d.data_directories) == d.data_directories);
    assert(plan_imports(d, q) is Ok && plan_imports(d, q)->Ok_0 == q) by {
        if d.imports.len() == 0 {
            let x = with_dir(q, DataDirectoryIndex::Import, empty_directory());
            assert(x.dirs =~= q.dirs);
            let y = with_dir(x, DataDirectoryIndex::Iat, empty_directory());
            assert(y.dirs =~= q.dirs);
        } else {
            assert(imports_of(d) == d.imports);
            assert(imports_match(d));
        }
    }
    assert(plan_exports(d, q) is Ok && plan_exports(d, q)->Ok_0 == q) by {
        match d.exports {
            None => {
                let x = with_dir(q, DataDirectoryIndex::Export, empty_directory());
                assert(x.dirs =~= q.dirs);
            },
            Some(t) => {
                assert(exports_of(d) == d.exports);
                assert(exports_match(d));
            },
        }
    }
    assert(resources_of(d) == d.resources);
    assert(relocations_of(d) == d.relocations);
    assert(tls_in(d) == d.tls);
    assert(load_config_in(d) == d.load_config);
}

/// Whether a section has the given name and the flags of readable and writable
/// data.
pub open spec fn is_data_section(s: SectionModel, name: Seq<u8>) -> bool {
    &&& s.header.name@ == name
    &&& s.header.characteristics == 0xc000_0040
}

/// Imports that do not stand in the image are written into a section `.peimp`
/// behind the document's own, and the import directory points at it.
pub proof fn new_imports_get_a_section(d: DocModel)
    requires
        file_plan(d) is Ok,
        d.imports.len() > 0,
        !imports_match(d),
    ensures
        ({
            let p = file_plan(d)->Ok_0;
            let n = d.sections.len() as int;
            &&& p.sections.len() > n
            &&& is_data_section(p.sections[n], seq![0x2eu8, 0x70, 0x65, 0x69, 0x6d, 0x70, 0, 0])
            &&& p.dirs[1].rva == p.sections[n].header.virtual_address
        }),
{
    lemma_grows(d);
    lemma_prefixes(d);
    lemma_data_flags();
    let n = d.sections.len() as int;
    let s = file_plan(d)->Ok_0.sections;
    assert(s[n] == s.take(n + 1)[n]);
    assert(s[n] == plan1(d).sections[n]);
    assert(plan6(d).dirs[1] == plan1(d).dirs[1]);
    assert(s[n].header.name@ =~= seq![0x2eu8, 0x70, 0x65, 0x69, 0x6d, 0x70, 0, 0]);
}

/// Exports that do not stand in the image are written into a section `.peexp`,
/// and the export directory points at it.
pub proof fn new_exports_get_a_section(d: DocModel)
    requires
        file_plan(d) is Ok,
        d.exports is Some,
        !exports_match(d),
    ensures
        ({
            let p = file_plan(d)->Ok_0;
            exists|i: int|
                d.sections.len() <= i < p.sections.len() && is_data_section(
                    #[trigger] p.sections[i],
                    seq![0x2eu8, 0x70, 0x65, 0x65, 0x78, 0x70, 0, 0],
                ) && p.dirs[0].rva == p.sections[i].header.virtual_address
        }),
{
    lemma_grows(d);
    lemma_prefixes(d);
    lemma_data_flags();
    let n = plan1(d).sections.len() as int;
    let s = file_plan(d)->Ok_0.sections;
    assert(s[n] == s.take(n + 1)[n]);
    assert(s[n] == plan2(d).sections[n]);
    assert(plan6(d).dirs[0] == plan2(d).dirs[0]);
    assert(s[n].header.name@ =~= seq![0x2eu8, 0x70, 0x65, 0x65, 0x78, 0x70, 0, 0]);
}

proof fn lemma_data_flags()
    ensures
        crate::domain::document::data_section_flags() == 0xc000_0040,
{
    assert(0x40u32 | 0x4000_0000u32 | 0x8000_0000u32 == 0xc000_0040u32) by (bit_vector);
}

/// Tables that are gone are cleared from the directories.
pub proof fn removed_tables_are_cleared(d: DocModel)
    requires
        file_plan(d) is Ok,
    ensures
        ({
            let p = file_plan(d)->Ok_0;
            &&& p.dirs.len() >= 16
            &&& d.imports.len() == 0 ==> p.dirs[1].rva.0 == 0 && p.dirs[1].size == 0
                && p.dirs[12].rva.0 == 0 && p.dirs[12].size == 0
            &&& d.exports is None ==> p.dirs[0].rva.0 == 0 && p.dirs[0].size == 0
            &&& d.resources is None && resources_of(d) is Some ==> p.dirs[2].rva.0 == 0
            &&& d.relocations is None && relocations_of(d) is Some ==> p.dirs[5].rva.0 == 0
            &&& d.tls is None && tls_in(d) is Some ==> p.dirs[9].rva.0 == 0
            &&& d.load_config is None && load_config_in(d) is Some ==> p.dirs[10].rva.0 == 0
            &&& forall|i: int|
                0 <= i < 16 && i != 0 && i != 1 && i != 2 && i != 5 && i != 9 && i != 10 && i != 12
                    ==> #[trigger] p.dirs[i] == full_directories(d.data_directories)[i]
        }),
{
    lemma_grows(d);
    let p = plan6(d);
    let q = initial_plan(d);
    assert(p.dirs[0] == plan2(d).dirs[0]);
    assert(p.dirs[1] == plan1(d).dirs[1]);
    assert(p.dirs[12] == plan1(d).dirs[12]);
    assert(p.dirs[2] == plan3(d).dirs[2]);
    assert(p.dirs[5] == plan4(d).dirs[5]);
    assert(p.dirs[9] == plan5(d).dirs[9]);
    assert forall|i: int|
        0 <= i < 16 && i != 0 && i != 1 && i != 2 && i != 5 && i != 9 && i != 10 && i
            != 12 implies #[trigger] p.dirs[i] == full_directories(d.data_directories)[i] by {
        assert(plan5(d).dirs[i] == plan4(d).dirs[i]);
        assert(plan4(d).dirs[i] == plan3(d).dirs[i]);
        assert(plan3(d).dirs[i] == plan2(d).dirs[i]);
        assert(plan2(d).dirs[i] == plan1(d).dirs[i]);
        assert(plan1(d).dirs[i] == q.dirs[i]);
    }
}

} // verus!
