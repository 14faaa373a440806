//! The texts of the interface, in English and in Chinese.

use crate::domain::import::views;
use crate::ui::lang::{EN, ZH};
use vstd::prelude::*;
use vstd::string::*;

verus! {

/// How many texts there are.
pub const TEXT_COUNT: usize = 110;

/// The texts: key, English, Chinese.
pub const TEXTS: [(&'static str, &'static str, &'static str); 110] = [
    ("app.title", "PE Editor", "PE 编辑器"),
    ("app.title_scylla", "Scylla Dumper", "Scylla 转储器"),
    ("menu.file", "File", "文件"),
    ("menu.open", "Open…", "打开…"),
    ("menu.save", "Save", "保存"),
    ("menu.save_as", "Save As…", "另存为…"),
    ("menu.exit", "Exit", "退出"),
    ("menu.edit", "Edit", "编辑"),
    ("menu.undo", "Undo", "撤销"),
    ("menu.redo", "Redo", "重做"),
    ("menu.language", "Language", "语言"),
    ("menu.lang_en", "English", "English"),
    ("menu.lang_zh", "中文", "中文"),
    ("toolbar.file", "File:", "文件:"),
    ("toolbar.not_open", "(not open)", "(未打开)"),
    ("view.file", "File", "文件"),
    ("view.memory", "Memory", "内存"),
    ("search.label", "Search:", "搜索:"),
    ("search.hint", "name…", "名称…"),
    ("search.find", "Find", "查找"),
    ("search.results", "Search results", "搜索结果"),
    ("status.modified", "modified", "已修改"),
    ("status.loaded", "loaded %{path}", "已加载 %{path}"),
    ("status.parse_failed", "parse failed: %{err}", "解析失败:%{err}"),
    ("status.read_failed", "read failed: %{err}", "读取失败:%{err}"),
    ("status.no_document", "no document", "没有文档"),
    ("status.saved", "saved %{len} bytes to %{path}", "已保存 %{len} 字节到 %{path}"),
    ("status.write_failed", "write failed: %{err}", "写入失败:%{err}"),
    (
        "status.roundtrip_invalid",
        "not saved: the result no longer parses: %{err}",
        "未保存:结果无法重新解析:%{err}",
    ),
    ("status.serialize_failed", "serialize failed: %{err}", "序列化失败:%{err}"),
    ("status.added_section", "added section %{name}", "已添加节 %{name}"),
    ("status.add_failed", "add failed: %{err}", "添加失败:%{err}"),
    ("status.remove_failed", "remove failed: %{err}", "删除失败:%{err}"),
    ("status.module_func_required", "module and function are required", "需要模块名和函数名"),
    ("status.added_import", "added import %{module}!%{func}", "已添加导入 %{module}!%{func}"),
    ("status.add_import_failed", "add import failed: %{err}", "添加导入失败:%{err}"),
    ("status.remove_import_failed", "remove import failed: %{err}", "删除导入失败:%{err}"),
    ("status.added_export", "added export ordinal %{ordinal}", "已添加导出序号 %{ordinal}"),
    ("status.add_export_failed", "add export failed: %{err}", "添加导出失败:%{err}"),
    ("status.remove_export_failed", "remove export failed: %{err}", "删除导出失败:%{err}"),
    ("dialog.open_pe", "Open PE file", "打开 PE 文件"),
    ("dialog.save_pe", "Save PE file", "保存 PE 文件"),
    ("dialog.unsaved_title", "Unsaved changes", "未保存的更改"),
    ("dialog.unsaved_msg", "There are unsaved changes. Discard them?", "有未保存的更改。要放弃吗?"),
    ("dialog.discard", "Discard", "放弃"),
    ("dialog.cancel", "Cancel", "取消"),
    (
        "guidance.open_pe",
        "Open a PE file (File → Open) to begin.",
        "打开一个 PE 文件(文件 → 打开)以开始。",
    ),
    ("node.dos", "DOS Header", "DOS 头"),
    ("node.coff", "COFF Header", "COFF 头"),
    ("node.optional", "Optional Header", "可选头"),
    ("node.data_dirs", "Data Directories", "数据目录"),
    ("node.sections", "Sections", "节"),
    ("node.imports", "Imports", "导入表"),
    ("node.exports", "Exports", "导出表"),
    ("node.resources", "Resources", "资源"),
    ("node.relocations", "Relocations", "重定位"),
    ("node.tls", "TLS", "TLS"),
    ("node.load_config", "Load Config", "加载配置"),
    ("node.converter", "Address Converter", "地址转换"),
    (
        "hint.e_lfanew",
        "e_lfanew and the stub are laid out on save.",
        "e_lfanew 和存根在保存时确定。",
    ),
    (
        "hint.coff_derived",
        "Section count and optional header size are derived on save.",
        "节数和可选头大小在保存时计算。",
    ),
    ("hint.optional_32", "Addresses are 32-bit in PE32 files.", "PE32 文件中的地址为 32 位。"),
    (
        "hint.optional_derived",
        "Sizes of image and headers are derived on save.",
        "映像和头的大小在保存时计算。",
    ),
    (
        "hint.dirs_managed",
        "Read-only directories are rendered on save.",
        "只读目录在保存时重新生成。",
    ),
    (
        "hint.section_raw",
        "Raw sizes and offsets are assigned on save.",
        "原始大小和偏移在保存时分配。",
    ),
    ("button.remove", "Remove", "删除"),
    ("button.add", "Add", "添加"),
    ("button.add_export", "Add export", "添加导出"),
    ("button.convert", "Convert", "转换"),
    ("sections.add_section", "Add section:", "添加节:"),
    ("sections.overlap", "Overlapping sections: %{names}", "重叠的节:%{names}"),
    ("binary.select_section", "Select a section to see its bytes.", "选择一个节以查看其字节。"),
    ("binary.empty", "%{name} is empty", "%{name} 为空"),
    (
        "binary.range",
        "%{name}: %{base}..%{end} (%{len} bytes)",
        "%{name}:%{base}..%{end}(%{len} 字节)",
    ),
    ("binary.jump_hint", "right-click to jump", "右键跳转"),
    ("binary.find_label", "Find:", "查找:"),
    ("binary.find", "Find", "查找"),
    ("binary.not_found", "not found", "未找到"),
    ("binary.jump_label", "Jump to address:", "跳转到地址:"),
    ("binary.go", "Go", "转到"),
    ("binary.jump_start", "Start of section", "节的开头"),
    ("binary.jump_end", "End of section", "节的结尾"),
    ("imports.modules", "Modules", "模块"),
    ("imports.add", "Add:", "添加:"),
    ("imports.hint_module", "module", "模块"),
    ("imports.hint_func", "function", "函数"),
    ("imports.filter", "Filter:", "过滤:"),
    ("imports.filter_hint", "module name", "模块名"),
    ("imports.select_module_left", "Select a module on the left.", "在左侧选择一个模块。"),
    ("imports.module_funcs", "%{module} (%{count} functions)", "%{module}(%{count} 个函数)"),
    ("imports.add_fn", "Add function:", "添加函数:"),
    ("imports.ordinal_fn", "ordinal %{ordinal}", "序号 %{ordinal}"),
    ("exports.module", "Module:", "模块:"),
    ("exports.base", "Base:", "基数:"),
    ("exports.add", "Add:", "添加:"),
    ("exports.hint_name", "name (empty = ordinal-only)", "名称(空 = 仅序号)"),
    ("empty.no_imports", "no imports", "没有导入"),
    ("empty.no_functions", "no functions", "没有函数"),
    (
        "empty.no_export_table",
        "No export table — add a symbol below to create one.",
        "没有导出表——在下方添加符号以创建。",
    ),
    ("empty.no_resources", "no resources", "没有资源"),
    ("empty.no_relocations", "no relocations", "没有重定位"),
    ("empty.no_tls", "no TLS directory", "没有 TLS 目录"),
    ("empty.no_load_config", "no load configuration", "没有加载配置"),
    ("resource.preview", "Preview", "预览"),
    ("reloc.summary", "%{blocks} blocks, %{entries} entries", "%{blocks} 个块,%{entries} 个条目"),
    ("reloc.col_block", "Block", "块"),
    ("reloc.col_page", "Page", "页"),
    ("reloc.col_offset", "Offset", "偏移"),
    ("reloc.col_type", "Type", "类型"),
    ("conv.image_base", "image base %{base}", "映像基址 %{base}"),
];

/// Whether there are texts for a locale code.
pub open spec fn is_supported(code: Seq<char>) -> bool {
    code == "en"@ || code == "zh-CN"@
}

/// The keys that have a text in a language, in the order of the table.
pub open spec fn keys_of(code: Seq<char>) -> Seq<Seq<char>> {
    if is_supported(code) {
        Seq::new(TEXT_COUNT as nat, |i: int| TEXTS@[i].0@)
    } else {
        Seq::empty()
    }
}

/// The keys that have a text in a language.
pub fn locale_keys(code: &str) -> (r: Vec<&'static str>)
    ensures
        views(r@) == keys_of(code@),
{
    let mut r: Vec<&'static str> = Vec::new();
    let code: String = code.to_owned();
    if code != EN.to_owned() && code != ZH.to_owned() {
        assert(views(r@) =~= Seq::empty());
        return r;
    }
    let texts = TEXTS;
    let mut i: usize = 0;
    while i < texts.len()
        invariant
            i <= texts.len(),
            texts == TEXTS,
            r@.len() == i,
            forall|j: int| 0 <= j < i ==> (#[trigger] r@[j])@ == texts@[j].0@,
        decreases texts.len() - i,
    {
        r.push(texts[i].0);
        i = i + 1;
    }
    assert(views(r@) =~= keys_of(code@));
    r
}

/// Every key that has an English text has a Chinese one, and the other way
/// round: no text falls back to the other language.
pub proof fn languages_have_the_same_keys(key: Seq<char>)
    ensures
        keys_of("en"@).contains(key) == keys_of("zh-CN"@).contains(key),
{
}

} // verus!
