//! The inventory of formats and the inspection of files agree.

use crate::document::names::{
    category_name, dot_place, ext_category, path_extension, path_file_name, Category,
};
use crate::document::runtime::{
    group_category, group_extensions, is_inventory, needs_provider, strs_view, SupportedFormat,
};
use crate::file_parser::runtime::{components, components_upto};
use crate::text::{last_index, lemma_until, lower, split, texts, until};
use vstd::prelude::*;

verus! {

/// Small letters and digits only.
pub open spec fn is_plain(e: Seq<char>) -> bool {
    e.len() > 0 && forall|k: int|
        0 <= k < e.len() ==> ('a' <= #[trigger] e[k] && e[k] <= 'z') || ('0' <= e[k] && e[k] <= '9')
}

/// The text is made of these letters, one by one.
pub open spec fn spells(s: Seq<char>, letters: Seq<char>) -> bool {
    &&& s == letters
    &&& s.len() > 0 ==> s[0] == letters[0]
    &&& s.len() > 1 ==> s[1] == letters[1]
    &&& s.len() > 2 ==> s[2] == letters[2]
    &&& s.len() > 3 ==> s[3] == letters[3]
}

proof fn lemma_spelled_text()
    ensures
        spells("txt"@, seq!['t', 'x', 't']),
        spells("md"@, seq!['m', 'd']),
        spells("mdx"@, seq!['m', 'd', 'x']),
        spells("json"@, seq!['j', 's', 'o', 'n']),
        spells("yaml"@, seq!['y', 'a', 'm', 'l']),
        spells("yml"@, seq!['y', 'm', 'l']),
        spells("toml"@, seq!['t', 'o', 'm', 'l']),
        spells("xml"@, seq!['x', 'm', 'l']),
        spells("rs"@, seq!['r', 's']),
        spells("ts"@, seq!['t', 's']),
        spells("js"@, seq!['j', 's']),
        spells("py"@, seq!['p', 'y']),
        spells("log"@, seq!['l', 'o', 'g']),
        spells("tsx"@, seq!['t', 's', 'x']),
        spells("jsx"@, seq!['j', 's', 'x']),
        spells("go"@, seq!['g', 'o']),
        spells("java"@, seq!['j', 'a', 'v', 'a']),
        spells("c"@, seq!['c']),
        spells("cpp"@, seq!['c', 'p', 'p']),
        spells("sh"@, seq!['s', 'h']),
        spells("sql"@, seq!['s', 'q', 'l']),
{
    reveal_strlit("txt");
    reveal_strlit("md");
    reveal_strlit("mdx");
    reveal_strlit("json");
    reveal_strlit("yaml");
    reveal_strlit("yml");
    reveal_strlit("toml");
    reveal_strlit("xml");
    reveal_strlit("rs");
    reveal_strlit("ts");
    reveal_strlit("js");
    reveal_strlit("py");
    reveal_strlit("log");
    reveal_strlit("tsx");
    reveal_strlit("jsx");
    reveal_strlit("go");
    reveal_strlit("java");
    reveal_strlit("c");
    reveal_strlit("cpp");
    reveal_strlit("sh");
    reveal_strlit("sql");
    assert("txt"@ =~= seq!['t', 'x', 't']);
    assert("md"@ =~= seq!['m', 'd']);
    assert("mdx"@ =~= seq!['m', 'd', 'x']);
    assert("json"@ =~= seq!['j', 's', 'o', 'n']);
    assert("yaml"@ =~= seq!['y', 'a', 'm', 'l']);
    assert("yml"@ =~= seq!['y', 'm', 'l']);
    assert("toml"@ =~= seq!['t', 'o', 'm', 'l']);
    assert("xml"@ =~= seq!['x', 'm', 'l']);
    assert("rs"@ =~= seq!['r', 's']);
    assert("ts"@ =~= seq!['t', 's']);
    assert("js"@ =~= seq!['j', 's']);
    assert("py"@ =~= seq!['p', 'y']);
    assert("log"@ =~= seq!['l', 'o', 'g']);
    assert("tsx"@ =~= seq!['t', 's', 'x']);
    assert("jsx"@ =~= seq!['j', 's', 'x']);
    assert("go"@ =~= seq!['g', 'o']);
    assert("java"@ =~= seq!['j', 'a', 'v', 'a']);
    assert("c"@ =~= seq!['c']);
    assert("cpp"@ =~= seq!['c', 'p', 'p']);
    assert("sh"@ =~= seq!['s', 'h']);
    assert("sql"@ =~= seq!['s', 'q', 'l']);
}

proof fn lemma_spelled_web()
    ensures
        spells("html"@, seq!['h', 't', 'm', 'l']),
        spells("htm"@, seq!['h', 't', 'm']),
        spells("pdf"@, seq!['p', 'd', 'f']),
{
    reveal_strlit("html");
    reveal_strlit("htm");
    reveal_strlit("pdf");
    assert("html"@ =~= seq!['h', 't', 'm', 'l']);
    assert("htm"@ =~= seq!['h', 't', 'm']);
    assert("pdf"@ =~= seq!['p', 'd', 'f']);
}

proof fn lemma_spelled_image()
    ensures
        spells("png"@, seq!['p', 'n', 'g']),
        spells("jpg"@, seq!['j', 'p', 'g']),
        spells("jpeg"@, seq!['j', 'p', 'e', 'g']),
        spells("webp"@, seq!['w', 'e', 'b', 'p']),
        spells("gif"@, seq!['g', 'i', 'f']),
        spells("bmp"@, seq!['b', 'm', 'p']),
        spells("tif"@, seq!['t', 'i', 'f']),
        spells("tiff"@, seq!['t', 'i', 'f', 'f']),
{
    reveal_strlit("png");
    reveal_strlit("jpg");
    reveal_strlit("jpeg");
    reveal_strlit("webp");
    reveal_strlit("gif");
    reveal_strlit("bmp");
    reveal_strlit("tif");
    reveal_strlit("tiff");
    assert("png"@ =~= seq!['p', 'n', 'g']);
    assert("jpg"@ =~= seq!['j', 'p', 'g']);
    assert("jpeg"@ =~= seq!['j', 'p', 'e', 'g']);
    assert("webp"@ =~= seq!['w', 'e', 'b', 'p']);
    assert("gif"@ =~= seq!['g', 'i', 'f']);
    assert("bmp"@ =~= seq!['b', 'm', 'p']);
    assert("tif"@ =~= seq!['t', 'i', 'f']);
    assert("tiff"@ =~= seq!['t', 'i', 'f', 'f']);
}

proof fn lemma_spelled_audio()
    ensures
        spells("mp3"@, seq!['m', 'p', '3']),
        spells("wav"@, seq!['w', 'a', 'v']),
        spells("m4a"@, seq!['m', '4', 'a']),
        spells("aac"@, seq!['a', 'a', 'c']),
        spells("flac"@, seq!['f', 'l', 'a', 'c']),
        spells("ogg"@, seq!['o', 'g', 'g']),
        spells("opus"@, seq!['o', 'p', 'u', 's']),
{
    reveal_strlit("mp3");
    reveal_strlit("wav");
    reveal_strlit("m4a");
    reveal_strlit("aac");
    reveal_strlit("flac");
    reveal_strlit("ogg");
    reveal_strlit("opus");
    assert("mp3"@ =~= seq!['m', 'p', '3']);
    assert("wav"@ =~= seq!['w', 'a', 'v']);
    assert("m4a"@ =~= seq!['m', '4', 'a']);
    assert("aac"@ =~= seq!['a', 'a', 'c']);
    assert("flac"@ =~= seq!['f', 'l', 'a', 'c']);
    assert("ogg"@ =~= seq!['o', 'g', 'g']);
    assert("opus"@ =~= seq!['o', 'p', 'u', 's']);
}

proof fn lemma_spelled_video()
    ensures
        spells("mp4"@, seq!['m', 'p', '4']),
        spells("webm"@, seq!['w', 'e', 'b', 'm']),
        spells("mov"@, seq!['m', 'o', 'v']),
        spells("mkv"@, seq!['m', 'k', 'v']),
{
    reveal_strlit("mp4");
    reveal_strlit("webm");
    reveal_strlit("mov");
    reveal_strlit("mkv");
    assert("mp4"@ =~= seq!['m', 'p', '4']);
    assert("webm"@ =~= seq!['w', 'e', 'b', 'm']);
    assert("mov"@ =~= seq!['m', 'o', 'v']);
    assert("mkv"@ =~= seq!['m', 'k', 'v']);
}

proof fn lemma_spelled_document()
    ensures
        spells("doc"@, seq!['d', 'o', 'c']),
        spells("docx"@, seq!['d', 'o', 'c', 'x']),
        spells("docm"@, seq!['d', 'o', 'c', 'm']),
        spells("ppt"@, seq!['p', 'p', 't']),
        spells("pptx"@, seq!['p', 'p', 't', 'x']),
        spells("pptm"@, seq!['p', 'p', 't', 'm']),
        spells("xls"@, seq!['x', 'l', 's']),
        spells("xlsx"@, seq!['x', 'l', 's', 'x']),
        spells("xlsm"@, seq!['x', 'l', 's', 'm']),
        spells("xlsb"@, seq!['x', 'l', 's', 'b']),
        spells("odt"@, seq!['o', 'd', 't']),
        spells("ods"@, seq!['o', 'd', 's']),
        spells("odp"@, seq!['o', 'd', 'p']),
        spells("rtf"@, seq!['r', 't', 'f']),
        spells("epub"@, seq!['e', 'p', 'u', 'b']),
        spells("csv"@, seq!['c', 's', 'v']),
        spells("pps"@, seq!['p', 'p', 's']),
        spells("ppsx"@, seq!['p', 'p', 's', 'x']),
{
    reveal_strlit("doc");
    reveal_strlit("docx");
    reveal_strlit("docm");
    reveal_strlit("ppt");
    reveal_strlit("pptx");
    reveal_strlit("pptm");
    reveal_strlit("xls");
    reveal_strlit("xlsx");
    reveal_strlit("xlsm");
    reveal_strlit("xlsb");
    reveal_strlit("odt");
    reveal_strlit("ods");
    reveal_strlit("odp");
    reveal_strlit("rtf");
    reveal_strlit("epub");
    reveal_strlit("csv");
    reveal_strlit("pps");
    reveal_strlit("ppsx");
    assert("doc"@ =~= seq!['d', 'o', 'c']);
    assert("docx"@ =~= seq!['d', 'o', 'c', 'x']);
    assert("docm"@ =~= seq!['d', 'o', 'c', 'm']);
    assert("ppt"@ =~= seq!['p', 'p', 't']);
    assert("pptx"@ =~= seq!['p', 'p', 't', 'x']);
    assert("pptm"@ =~= seq!['p', 'p', 't', 'm']);
    assert("xls"@ =~= seq!['x', 'l', 's']);
    assert("xlsx"@ =~= seq!['x', 'l', 's', 'x']);
    assert("xlsm"@ =~= seq!['x', 'l', 's', 'm']);
    assert("xlsb"@ =~= seq!['x', 'l', 's', 'b']);
    assert("odt"@ =~= seq!['o', 'd', 't']);
    assert("ods"@ =~= seq!['o', 'd', 's']);
    assert("odp"@ =~= seq!['o', 'd', 'p']);
    assert("rtf"@ =~= seq!['r', 't', 'f']);
    assert("epub"@ =~= seq!['e', 'p', 'u', 'b']);
    assert("csv"@ =~= seq!['c', 's', 'v']);
    assert("pps"@ =~= seq!['p', 'p', 's']);
    assert("ppsx"@ =~= seq!['p', 'p', 's', 'x']);
}

proof fn lemma_last_dot(stem: Seq<char>, e: Seq<char>)
    requires
        is_plain(e) || e.len() == 0,
    ensures
        last_index(stem + seq!['.'] + e, '.') == Some(stem.len()),
    decreases e.len(),
{
    let all = stem + seq!['.'] + e;
    if e.len() > 0 {
        assert(all.last() == e[e.len() - 1]);
        let shorter = e.drop_last();
        assert(all.drop_last() =~= stem + seq!['.'] + shorter);
        assert forall|k: int| 0 <= k < shorter.len() implies ('a' <= #[trigger] shorter[k]
            && shorter[k] <= 'z') || ('0' <= shorter[k] && shorter[k] <= '9') by {
            assert(shorter[k] == e[k]);
        }
        lemma_last_dot(stem, shorter);
    } else {
        assert(all.last() == '.');
    }
}

/// The extension of a plain name is what stands behind its dot.
proof fn lemma_extension(stem: Seq<char>, e: Seq<char>)
    requires
        stem.len() > 0,
        !stem.contains('/'),
        is_plain(e),
    ensures
        path_extension(stem + "."@ + e) == e,
{
    reveal_strlit(".");
    reveal_strlit("..");
    reveal_strlit("/");
    assert("."@ =~= seq!['.']);
    let name = stem + "."@ + e;
    assert(name == stem + seq!['.'] + e);
    lemma_until(name, '/');
    let n = until(name, '/') as int;
    if n < name.len() {
        if n < stem.len() {
            assert(stem[n] == name[n]);
        } else if n > stem.len() {
            assert(name[n] == e[n - stem.len() - 1]);
        }
    }
    let parts = split(name, '/');
    assert(parts =~= seq![name]);
    assert(name[0] == stem[0]);
    assert(stem.contains(stem[0]));
    assert(components_upto(parts, false, 0) =~= seq![]);
    assert(components_upto(parts, false, 1) =~= seq![name]) by {
        reveal_with_fuel(components_upto, 2);
    }
    assert(components(name) == seq![name]);
    assert(path_file_name(name) == Some(name));
    lemma_last_dot(stem, e);
    assert(dot_place(name) == Some(stem.len()));
    assert(name.skip(stem.len() as int + 1) =~= e);
    assert(lower(e) =~= e);
}

/// The extensions of a group are plain, stand for its category and are all different.
pub open spec fn group_agrees(g: int) -> bool {
    let all = strs_view(group_extensions(g));
    &&& forall|k: int|
        0 <= k < all.len() ==> is_plain(#[trigger] all[k]) && ext_category(all[k]) == group_category(g)
    &&& forall|k: int, l: int| 0 <= k < l < all.len() ==> #[trigger] all[k] != #[trigger] all[l]
}

proof fn lemma_text_group()
    ensures
        group_agrees(0),
{
    lemma_spelled_text();
    lemma_spelled_web();
    lemma_spelled_image();
    lemma_spelled_audio();
    lemma_spelled_video();
    lemma_spelled_document();
    let all = strs_view(group_extensions(0));
    assert(is_plain("txt"@) && ext_category("txt"@) == Category::Text);
    assert(is_plain("md"@) && ext_category("md"@) == Category::Text);
    assert(is_plain("mdx"@) && ext_category("mdx"@) == Category::Text);
    assert(is_plain("json"@) && ext_category("json"@) == Category::Text);
    assert(is_plain("yaml"@) && ext_category("yaml"@) == Category::Text);
    assert(is_plain("yml"@) && ext_category("yml"@) == Category::Text);
    assert(is_plain("toml"@) && ext_category("toml"@) == Category::Text);
    assert(is_plain("xml"@) && ext_category("xml"@) == Category::Text);
    assert(is_plain("rs"@) && ext_category("rs"@) == Category::Text);
    assert(is_plain("ts"@) && ext_category("ts"@) == Category::Text);
    assert(is_plain("js"@) && ext_category("js"@) == Category::Text);
    assert(is_plain("py"@) && ext_category("py"@) == Category::Text);
    assert forall|k: int| 0 <= k < all.len() implies is_plain(#[trigger] all[k])
        && ext_category(all[k]) == Category::Text by {}
    assert forall|k: int, l: int| 0 <= k < l < all.len() implies #[trigger] all[k]
        != #[trigger] all[l] by {}
}

proof fn lemma_document_group()
    ensures
        group_agrees(1),
{
    lemma_spelled_text();
    lemma_spelled_web();
    lemma_spelled_image();
    lemma_spelled_audio();
    lemma_spelled_video();
    lemma_spelled_document();
    let all = strs_view(group_extensions(1));
    assert(is_plain("doc"@) && ext_category("doc"@) == Category::Document);
    assert(is_plain("docx"@) && ext_category("docx"@) == Category::Document);
    assert(is_plain("docm"@) && ext_category("docm"@) == Category::Document);
    assert(is_plain("ppt"@) && ext_category("ppt"@) == Category::Document);
    assert(is_plain("pptx"@) && ext_category("pptx"@) == Category::Document);
    assert(is_plain("pptm"@) && ext_category("pptm"@) == Category::Document);
    assert(is_plain("xls"@) && ext_category("xls"@) == Category::Document);
    assert(is_plain("xlsx"@) && ext_category("xlsx"@) == Category::Document);
    assert(is_plain("xlsm"@) && ext_category("xlsm"@) == Category::Document);
    assert(is_plain("xlsb"@) && ext_category("xlsb"@) == Category::Document);
    assert(is_plain("odt"@) && ext_category("odt"@) == Category::Document);
    assert(is_plain("ods"@) && ext_category("ods"@) == Category::Document);
    assert(is_plain("odp"@) && ext_category("odp"@) == Category::Document);
    assert(is_plain("rtf"@) && ext_category("rtf"@) == Category::Document);
    assert(is_plain("epub"@) && ext_category("epub"@) == Category::Document);
    assert(is_plain("csv"@) && ext_category("csv"@) == Category::Document);
    assert forall|k: int| 0 <= k < all.len() implies is_plain(#[trigger] all[k])
        && ext_category(all[k]) == Category::Document by {}
    assert forall|k: int, l: int| 0 <= k < l < all.len() implies #[trigger] all[k]
        != #[trigger] all[l] by {}
}

proof fn lemma_pdf_group()
    ensures
        group_agrees(2),
{
    lemma_spelled_text();
    lemma_spelled_web();
    lemma_spelled_image();
    lemma_spelled_audio();
    lemma_spelled_video();
    lemma_spelled_document();
    let all = strs_view(group_extensions(2));
    assert(is_plain("pdf"@) && ext_category("pdf"@) == Category::Pdf);
    assert forall|k: int| 0 <= k < all.len() implies is_plain(#[trigger] all[k])
        && ext_category(all[k]) == Category::Pdf by {}
    assert forall|k: int, l: int| 0 <= k < l < all.len() implies #[trigger] all[k]
        != #[trigger] all[l] by {}
}

proof fn lemma_image_group()
    ensures
        group_agrees(3),
{
    lemma_spelled_text();
    lemma_spelled_web();
    lemma_spelled_image();
    lemma_spelled_audio();
    lemma_spelled_video();
    lemma_spelled_document();
    let all = strs_view(group_extensions(3));
    assert(is_plain("png"@) && ext_category("png"@) == Category::Image);
    assert(is_plain("jpg"@) && ext_category("jpg"@) == Category::Image);
    assert(is_plain("jpeg"@) && ext_category("jpeg"@) == Category::Image);
    assert(is_plain("webp"@) && ext_category("webp"@) == Category::Image);
    assert(is_plain("gif"@) && ext_category("gif"@) == Category::Image);
    assert(is_plain("bmp"@) && ext_category("bmp"@) == Category::Image);
    assert(is_plain("tif"@) && ext_category("tif"@) == Category::Image);
    assert(is_plain("tiff"@) && ext_category("tiff"@) == Category::Image);
    assert forall|k: int| 0 <= k < all.len() implies is_plain(#[trigger] all[k])
        && ext_category(all[k]) == Category::Image by {}
    assert forall|k: int, l: int| 0 <= k < l < all.len() implies #[trigger] all[k]
        != #[trigger] all[l] by {}
}

proof fn lemma_audio_group()
    ensures
        group_agrees(4),
{
    lemma_spelled_text();
    lemma_spelled_web();
    lemma_spelled_image();
    lemma_spelled_audio();
    lemma_spelled_video();
    lemma_spelled_document();
    let all = strs_view(group_extensions(4));
    assert(is_plain("mp3"@) && ext_category("mp3"@) == Category::Audio);
    assert(is_plain("wav"@) && ext_category("wav"@) == Category::Audio);
    assert(is_plain("m4a"@) && ext_category("m4a"@) == Category::Audio);
    assert(is_plain("aac"@) && ext_category("aac"@) == Category::Audio);
    assert(is_plain("flac"@) && ext_category("flac"@) == Category::Audio);
    assert(is_plain("ogg"@) && ext_category("ogg"@) == Category::Audio);
    assert(is_plain("opus"@) && ext_category("opus"@) == Category::Audio);
    assert forall|k: int| 0 <= k < all.len() implies is_plain(#[trigger] all[k])
        && ext_category(all[k]) == Category::Audio by {}
    assert forall|k: int, l: int| 0 <= k < l < all.len() implies #[trigger] all[k]
        != #[trigger] all[l] by {}
}

proof fn lemma_video_group()
    ensures
        group_agrees(5),
{
    lemma_spelled_text();
    lemma_spelled_web();
    lemma_spelled_image();
    lemma_spelled_audio();
    lemma_spelled_video();
    lemma_spelled_document();
    let all = strs_view(group_extensions(5));
    assert(is_plain("mp4"@) && ext_category("mp4"@) == Category::Video);
    assert(is_plain("webm"@) && ext_category("webm"@) == Category::Video);
    assert(is_plain("mov"@) && ext_category("mov"@) == Category::Video);
    assert(is_plain("mkv"@) && ext_category("mkv"@) == Category::Video);
    assert forall|k: int| 0 <= k < all.len() implies is_plain(#[trigger] all[k])
        && ext_category(all[k]) == Category::Video by {}
    assert forall|k: int, l: int| 0 <= k < l < all.len() implies #[trigger] all[k]
        != #[trigger] all[l] by {}
}

proof fn lemma_groups_agree(g: int)
    requires
        0 <= g < 6,
    ensures
        group_agrees(g),
{
    lemma_text_group();
    lemma_document_group();
    lemma_pdf_group();
    lemma_image_group();
    lemma_audio_group();
    lemma_video_group();
}

proof fn lemma_listed(groups: Seq<SupportedFormat>, g: int, k: int)
    requires
        is_inventory(groups),
        0 <= g < groups.len(),
        0 <= k < groups[g].extensions@.len(),
    ensures
        k < group_extensions(g).len(),
        groups[g].extensions@[k]@ == strs_view(group_extensions(g))[k],
        groups[g].category@ == category_name(group_category(g)),
        groups[g].requires_provider == needs_provider(group_category(g)),
{
    assert(texts(groups[g].extensions@) == strs_view(group_extensions(g)));
    assert(texts(groups[g].extensions@)[k] == groups[g].extensions@[k]@);
}

/// Whatever file has an extension of the inventory, its inspection gives the category
/// under which the extension is listed, and asks for a provider exactly as the
/// inventory says.
pub proof fn law_inventory_agrees_with_inspection(
    groups: Seq<SupportedFormat>,
    g: int,
    k: int,
    stem: Seq<char>,
)
    requires
        is_inventory(groups),
        0 <= g < groups.len(),
        0 <= k < groups[g].extensions@.len(),
        stem.len() > 0,
        !stem.contains('/'),
    ensures
        ({
            let name = stem + "."@ + groups[g].extensions@[k]@;
            let category = ext_category(path_extension(name));
            &&& category_name(category) == groups[g].category@
            &&& category != Category::Unsupported
            &&& needs_provider(category) == groups[g].requires_provider
        }),
{
    lemma_listed(groups, g, k);
    lemma_groups_agree(g);
    lemma_extension(stem, groups[g].extensions@[k]@);
}

/// No extension is listed twice.
pub proof fn law_extensions_are_listed_once(
    groups: Seq<SupportedFormat>,
    g: int,
    k: int,
    h: int,
    l: int,
)
    requires
        is_inventory(groups),
        0 <= g < groups.len(),
        0 <= k < groups[g].extensions@.len(),
        0 <= h < groups.len(),
        0 <= l < groups[h].extensions@.len(),
        g != h || k != l,
    ensures
        groups[g].extensions@[k]@ != groups[h].extensions@[l]@,
{
    lemma_listed(groups, g, k);
    lemma_listed(groups, h, l);
    lemma_groups_agree(g);
    lemma_groups_agree(h);
    let all = strs_view(group_extensions(g));
    if g == h {
        if k < l {
            assert(all[k] != all[l]);
        } else {
            assert(all[l] != all[k]);
        }
    } else {
        assert(ext_category(all[k]) == group_category(g));
        assert(ext_category(strs_view(group_extensions(h))[l]) == group_category(h));
    }
}

} // verus!
