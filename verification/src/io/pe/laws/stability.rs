//! Writing what was read back changes nothing.

use crate::domain::data_directory::{empty_directory, DataDirectoryIndex};
use crate::domain::document::{image_end, section_end, DocModel};
use crate::domain::section::SectionModel;
use crate::io::pe::decode::{
    enriched, exports_of, imports_of, load_config_in, parsed, relocations_of, resources_of, tls_in,
};
use crate::io::pe::laws::headers::{file_fits, headers_survive, reread, reread_sections};
use crate::io::pe::laws::roundtrip::{
    lemma_cleared, read_back, section_stable, written_file_is_read_back,
};
use crate::io::pe::writer::{
    directory_values, dos_values, exports_match, file_bytes, file_plan, full_directories,
    header_bytes, imports_match, initial_plan, plan_exports, plan_imports, raw_offset, raw_size,
    section_data_parts, section_header_parts, section_values, serialized, with_dir, FilePlan,
};
use vstd::prelude::*;

verus! {

/// Sections with the same addresses and bytes end at the same address.
proof fn lemma_image_end_same(a: Seq<SectionModel>, b: Seq<SectionModel>)
    requires
        a.len() == b.len(),
        forall|i: int|
            0 <= i < a.len() ==> (#[trigger] a[i]).header.virtual_address
                == b[i].header.virtual_address && a[i].data == b[i].data,
    ensures
        image_end(a) == image_end(b),
    decreases a.len(),
{
    if a.len() > 0 {
        let x = a.drop_last();
        let y = b.drop_last();
        assert forall|i: int| 0 <= i < x.len() implies (#[trigger] x[i]).header.virtual_address
            == y[i].header.virtual_address && x[i].data == y[i].data by {
            assert(a[i].data == b[i].data);
        }
        lemma_image_end_same(x, y);
        let k = a.len() - 1;
        assert(a[k].data == b[k].data);
        assert(section_end(a[k]) == section_end(b[k]));
    }
}

/// Whether a written document is settled: what is read back from the file would
/// be written as it stands there. Its sections are loaded as they are, a
/// directory that is read as empty is empty, and its export table, if it has
/// one, has symbols.
pub open spec fn settled(d: DocModel) -> bool {
    let p = file_plan(d)->Ok_0;
    let r = enriched(reread(d, p));
    &&& file_plan(d) is Ok
    &&& file_fits(d, p)
    &&& forall|i: int| 0 <= i < p.sections.len() ==> section_stable(d, #[trigger] p.sections[i])
    &&& r.imports.len() == 0 ==> p.dirs[1] == empty_directory() && p.dirs[12] == empty_directory()
    &&& r.exports is None ==> p.dirs[0] == empty_directory()
    &&& r.exports matches Some(t) ==> t.symbols.len() > 0
}

proof fn lemma_again(d: DocModel)
    requires
        settled(d),
    ensures
        read_back(d) == enriched(reread(d, file_plan(d)->Ok_0)),
        read_back(d).sections == reread_sections(d, file_plan(d)->Ok_0.sections),
        read_back(d).data_directories == file_plan(d)->Ok_0.dirs.take(16),
        read_back(d).data_directories.len() == 16,
        full_directories(read_back(d).data_directories) == read_back(d).data_directories,
{
    written_file_is_read_back(d);
    headers_survive(d, file_plan(d)->Ok_0);
    lemma_cleared(d);
}

/// What was read back is written with its own sections and directories.
proof fn lemma_plan_again(d: DocModel)
    requires
        settled(d),
    ensures
        file_plan(read_back(d)) is Ok,
        file_plan(read_back(d))->Ok_0 == (FilePlan {
            sections: read_back(d).sections,
            dirs: read_back(d).data_directories,
        }),
{
    let r = read_back(d);
    let k = reread(d, file_plan(d)->Ok_0);
    lemma_again(d);
    lemma_cleared(d);
    assert(r.data_directories[1] == file_plan(d)->Ok_0.dirs[1]);
    assert(r.data_directories[12] == file_plan(d)->Ok_0.dirs[12]);
    assert(r.data_directories[0] == file_plan(d)->Ok_0.dirs[0]);
    let q = initial_plan(r);
    assert(imports_of(r) == imports_of(k));
    assert(imports_of(k) == r.imports);
    assert(plan_imports(r, q) is Ok && plan_imports(r, q)->Ok_0 == q) by {
        if r.imports.len() == 0 {
            let x = with_dir(q, DataDirectoryIndex::Import, empty_directory());
            assert(x.dirs =~= q.dirs);
            let y = with_dir(x, DataDirectoryIndex::Iat, empty_directory());
            assert(y.dirs =~= q.dirs);
        } else {
            assert(imports_match(r));
        }
    }
    assert(plan_exports(r, q) is Ok && plan_exports(r, q)->Ok_0 == q) by {
        match r.exports {
            None => {
                let x = with_dir(q, DataDirectoryIndex::Export, empty_directory());
                assert(x.dirs =~= q.dirs);
            },
            Some(t) => {
                assert(exports_of(r) == r.exports);
                assert(t.symbols.len() > 0);
                assert(exports_match(r));
            },
        }
    }
    assert(resources_of(r) == r.resources);
    assert(relocations_of(r) == r.relocations);
    assert(tls_in(r) == r.tls);
    assert(load_config_in(r) == r.load_config);
}

proof fn lemma_raw_again(d: DocModel, i: int)
    requires
        settled(d),
        0 <= i <= file_plan(d)->Ok_0.sections.len(),
    ensures
        raw_offset(read_back(d), read_back(d).sections, i) == raw_offset(
            d,
            file_plan(d)->Ok_0.sections,
            i,
        ),
        i < file_plan(d)->Ok_0.sections.len() ==> raw_size(read_back(d), read_back(d).sections[i])
            == raw_size(d, file_plan(d)->Ok_0.sections[i]) && read_back(d).sections[i].data
            == file_plan(d)->Ok_0.sections[i].data,
    decreases i,
{
    let s = file_plan(d)->Ok_0.sections;
    lemma_again(d);
    if i < s.len() {
        assert(section_stable(d, s[i]));
    }
    if i > 0 {
        lemma_raw_again(d, i - 1);
    }
}

/// A document that was saved and read again is stable: writing it gives the
/// same file once more and adds no section. An export table without symbols is left out: it is
/// rendered anew each time. So is a directory whose table cannot be read from
/// the file: it is cleared the next time.
pub proof fn saved_document_is_stable(d: DocModel)
    requires
        settled(d),
    ensures
        serialized(d) is Ok,
        parsed(serialized(d)->Ok_0) is Ok,
        file_plan(read_back(d)) is Ok,
        file_plan(read_back(d))->Ok_0.sections == read_back(d).sections,
        serialized(parsed(serialized(d)->Ok_0)->Ok_0) == serialized(d),
{
    written_file_is_read_back(d);
    lemma_again(d);
    lemma_plan_again(d);
    let r = read_back(d);
    let p = file_plan(d)->Ok_0;
    let q = file_plan(r)->Ok_0;
    let s = p.sections;
    let n = s.len();
    assert forall|i: int| 0 <= i < n implies (#[trigger] s[i]).header.virtual_address
        == r.sections[i].header.virtual_address && s[i].data == r.sections[i].data by {
        lemma_raw_again(d, i);
    }
    lemma_image_end_same(s, r.sections);
    assert(dos_values(r.dos) =~= dos_values(d.dos));
    assert(directory_values(q.dirs) =~= directory_values(p.dirs));
    assert(section_header_parts(r, q.sections) =~= section_header_parts(d, s)) by {
        assert forall|i: int| 0 <= i < n implies section_header_parts(r, q.sections)[i]
            == section_header_parts(d, s)[i] by {
            lemma_raw_again(d, i);
            assert(section_values(
                r.sections[i].header,
                raw_size(r, r.sections[i]),
                crate::bytes::low(raw_offset(r, r.sections, i)),
            ) =~= section_values(
                s[i].header,
                raw_size(d, s[i]),
                crate::bytes::low(raw_offset(d, s, i)),
            ));
        }
    }
    assert(section_data_parts(r, q.sections) =~= section_data_parts(d, s)) by {
        assert forall|i: int| 0 <= i < n implies section_data_parts(r, q.sections)[i]
            == section_data_parts(d, s)[i] by {
            lemma_raw_again(d, i);
        }
    }
    crate::domain::types::machine_code_roundtrip(
        crate::domain::types::machine_code(d.coff.machine),
    );
    assert(header_bytes(r, q) == header_bytes(d, p));
    assert(file_bytes(r, q) == file_bytes(d, p));
}

} // verus!
