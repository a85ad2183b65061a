//! What recognition sends, how it waits, and what becomes of the answers.

use crate::http::{body_json, is_success, Exchange};
use crate::json::{as_items, as_text, json_parsed, json_pointer, JsonView};
use crate::ocr::image_pass::{
    alt_text, annotation_lines, figure_annotation, flat, image_name, is_extension, is_first,
    law_each_content_is_sent_once, mime_extension, planned, quote_line, tasks_for, unique_upto,
    with_extension, ImageOcrConfig, OcrImage, OcrTask,
};
use crate::ocr::paddle::{
    config_error, download_outcome, first_reserved, item_texts, pages_markdown, pages_upto,
    poll_outcome, reserved_key, submit_outcome, Download, PaddleOcrConfig, PollView,
};
use crate::ocr::provider::OcrErrorView;
use crate::text::{
    decimal, ends_with, is_blank, is_white, joined, last_index, lemma_trim_end_shape, lines,
    occurs_at, starts_with, trim, trim_end, words,
};
use crate::text_laws::{
    law_joined_parts_stand_in_order, law_last_index_is_the_last, law_trimming_cuts_white_space_only,
    law_words_keep_the_visible_text,
};
use vstd::prelude::*;

verus! {

// ---------------------------------------------------------------------------
// Pictures
// ---------------------------------------------------------------------------
/// One of the tasks is for the content of a picture, by its first appearance.
pub open spec fn is_asked_about(tasks: Seq<OcrTask>, images: Seq<OcrImage>, i: int) -> bool {
    exists|k: int|
        0 <= k < tasks.len() && (#[trigger] tasks[k]).index <= i && tasks[k].hash@
            == crate::ocr::image_pass::sha256(images[i].bytes@)
}

proof fn lemma_first_places(images: Seq<OcrImage>, n: nat)
    requires
        n <= images.len() <= usize::MAX,
    ensures
        forall|k: int|
            0 <= k < unique_upto(images, n).len() ==> #[trigger] unique_upto(images, n)[k] < n
                && is_first(images, unique_upto(images, n)[k] as int),
        forall|j: int, k: int|
            0 <= j < k < unique_upto(images, n).len() ==> #[trigger] unique_upto(images, n)[j]
                < #[trigger] unique_upto(images, n)[k],
    decreases n,
{
    if n > 0 {
        lemma_first_places(images, (n - 1) as nat);
        let before = unique_upto(images, (n - 1) as nat);
        let now = unique_upto(images, n);
        assert forall|j: int, k: int| 0 <= j < k < now.len() implies #[trigger] now[j]
            < #[trigger] now[k] by {
            assert(now[j] == before[j]);
            if k < before.len() {
                assert(now[k] == before[k]);
            }
        }
        assert forall|k: int| 0 <= k < now.len() implies #[trigger] now[k] < n && is_first(
            images,
            now[k] as int,
        ) by {
            if k < before.len() {
                assert(now[k] == before[k]);
            }
        }
    }
}

/// Where there is a provider and the pass is switched on, every picture's content is asked
/// about, once, at its first appearance and in order; otherwise nothing is.
pub proof fn law_every_picture_is_asked_about(
    images: Seq<OcrImage>,
    config: ImageOcrConfig,
    has_provider: bool,
    tasks: Seq<OcrTask>,
)
    requires
        images.len() <= usize::MAX,
        tasks_for(tasks, images, planned(images, config, has_provider)),
    ensures
        has_provider && config.enabled ==> forall|i: int|
            0 <= i < images.len() ==> #[trigger] is_asked_about(tasks, images, i),
        !has_provider || !config.enabled ==> tasks.len() == 0,
        forall|j: int, k: int|
            0 <= j < k < tasks.len() ==> (#[trigger] tasks[j]).index < (#[trigger] tasks[k]).index
                && tasks[j].hash@ != tasks[k].hash@,
        forall|k: int|
            0 <= k < tasks.len() ==> (#[trigger] tasks[k]).hash@ == crate::ocr::image_pass::sha256(
                images[tasks[k].index as int].bytes@,
            ),
{
    let places = unique_upto(images, images.len());
    law_each_content_is_sent_once(images, images.len());
    lemma_first_places(images, images.len());
    if has_provider && config.enabled {
        assert forall|i: int| 0 <= i < images.len() implies #[trigger] is_asked_about(
            tasks,
            images,
            i,
        ) by {
            let k = choose|k: int|
                0 <= k < places.len() && crate::ocr::image_pass::hash_at(images, i)
                    == crate::ocr::image_pass::hash_at(images, #[trigger] places[k] as int);
            assert(tasks[k].index == places[k]);
            if places[k] > i {
                assert(is_first(images, places[k] as int));
                assert(crate::ocr::image_pass::hash_at(images, i)
                    != crate::ocr::image_pass::hash_at(images, places[k] as int));
            }
        }
    }
    assert forall|j: int, k: int| 0 <= j < k < tasks.len() implies (#[trigger] tasks[j]).index < (
    #[trigger] tasks[k]).index && tasks[j].hash@ != tasks[k].hash@ by {
        assert(tasks[j].index == places[j] && tasks[k].index == places[k]);
    }
}

/// A name that ends in a dot and one to five letters or digits gets the new ending in their
/// place; any other name keeps what it has and gets the ending behind it.
pub proof fn law_endings_are_replaced(stem: Seq<char>, old: Seq<char>, ext: Seq<char>, name: Seq<
    char,
>)
    ensures
        is_extension(old) ==> with_extension(stem.push('.') + old, ext) == stem.push('.') + ext,
        (forall|s: Seq<char>, e: Seq<char>|
            is_extension(e) ==> name != #[trigger] (s.push('.') + e)) ==> with_extension(name, ext)
            == name.push('.') + ext,
{
    if is_extension(old) {
        let whole = stem.push('.') + old;
        law_last_index_is_the_last(whole, '.');
        let n = stem.len() as int;
        assert(whole[n] == '.');
        assert forall|j: int| n < j < whole.len() implies whole[j] != '.' by {
            assert(whole[j] == old[j - n - 1]);
        }
        match last_index(whole, '.') {
            Some(i) => {
                assert(i == n);
                assert(whole.skip(n + 1) =~= old);
                assert(whole.take(n) =~= stem);
            },
            None => {
                assert(whole.contains('.'));
            },
        }
    }
    law_last_index_is_the_last(name, '.');
    if let Some(i) = last_index(name, '.') {
        let tail = name.skip(i as int + 1);
        assert(name =~= name.take(i as int).push('.') + tail);
    }
}

/// A picture's name ends as its type says, and stays as it is where the type says nothing.
pub proof fn law_names_follow_the_type(name: Seq<char>)
    ensures
        ends_with(image_name(name, "image/jpeg"@), ".jpg"@),
        ends_with(image_name(name, "image/png"@), ".png"@),
        ends_with(image_name(name, "image/webp"@), ".webp"@),
        ends_with(image_name(name, "image/gif"@), ".gif"@),
        ends_with(image_name(name, "image/bmp"@), ".bmp"@),
        ends_with(image_name(name, "image/tiff"@), ".tiff"@),
        ends_with(image_name(name, "image/jp2"@), ".jp2"@),
        ends_with(image_name(name, "image/jpx"@), ".jp2"@),
        forall|mime: Seq<char>|
            !starts_with(mime, "image/"@) ==> #[trigger] image_name(name, mime) == name,
{
    reveal_strlit("image/");
    reveal_strlit("image/jpeg");
    reveal_strlit("image/png");
    reveal_strlit("image/webp");
    reveal_strlit("image/gif");
    reveal_strlit("image/bmp");
    reveal_strlit("image/tiff");
    reveal_strlit("image/jp2");
    reveal_strlit("image/jpx");
    lemma_mime_letters();
    lemma_new_ending(name, "jpg"@, ".jpg"@);
    lemma_new_ending(name, "png"@, ".png"@);
    lemma_new_ending(name, "webp"@, ".webp"@);
    lemma_new_ending(name, "gif"@, ".gif"@);
    lemma_new_ending(name, "bmp"@, ".bmp"@);
    lemma_new_ending(name, "tiff"@, ".tiff"@);
    lemma_new_ending(name, "jp2"@, ".jp2"@);
    assert forall|mime: Seq<char>| !starts_with(mime, "image/"@) implies #[trigger] image_name(
        name,
        mime,
    ) == name by {
        assert("image/jpeg"@.subrange(0, 6) =~= "image/"@);
        assert("image/png"@.subrange(0, 6) =~= "image/"@);
        assert("image/webp"@.subrange(0, 6) =~= "image/"@);
        assert("image/gif"@.subrange(0, 6) =~= "image/"@);
        assert("image/bmp"@.subrange(0, 6) =~= "image/"@);
        assert("image/tiff"@.subrange(0, 6) =~= "image/"@);
        assert("image/jp2"@.subrange(0, 6) =~= "image/"@);
        assert("image/jpx"@.subrange(0, 6) =~= "image/"@);
    }
}

proof fn lemma_mime_letters()
    ensures
        mime_extension("image/jpeg"@) == Some("jpg"@),
        mime_extension("image/png"@) == Some("png"@),
        mime_extension("image/webp"@) == Some("webp"@),
        mime_extension("image/gif"@) == Some("gif"@),
        mime_extension("image/bmp"@) == Some("bmp"@),
        mime_extension("image/tiff"@) == Some("tiff"@),
        mime_extension("image/jp2"@) == Some("jp2"@),
        mime_extension("image/jpx"@) == Some("jp2"@),
        ".jpg"@ == seq!['.'] + "jpg"@,
        ".png"@ == seq!['.'] + "png"@,
        ".webp"@ == seq!['.'] + "webp"@,
        ".gif"@ == seq!['.'] + "gif"@,
        ".bmp"@ == seq!['.'] + "bmp"@,
        ".tiff"@ == seq!['.'] + "tiff"@,
        ".jp2"@ == seq!['.'] + "jp2"@,
{
    reveal_strlit("image/jpeg");
    reveal_strlit("image/png");
    reveal_strlit("image/webp");
    reveal_strlit("image/gif");
    reveal_strlit("image/bmp");
    reveal_strlit("image/tiff");
    reveal_strlit("image/jp2");
    reveal_strlit("image/jpx");
    reveal_strlit("jpg");
    reveal_strlit("png");
    reveal_strlit("webp");
    reveal_strlit("gif");
    reveal_strlit("bmp");
    reveal_strlit("tiff");
    reveal_strlit("jp2");
    reveal_strlit(".jpg");
    reveal_strlit(".png");
    reveal_strlit(".webp");
    reveal_strlit(".gif");
    reveal_strlit(".bmp");
    reveal_strlit(".tiff");
    reveal_strlit(".jp2");
    assert("image/png"@[6] != "image/jpeg"@[6]);
    assert("image/webp"@[6] == 'w');
    assert("image/gif"@[6] == 'g');
    assert("image/bmp"@[6] == 'b');
    assert("image/tiff"@[6] == 't');
    assert("image/jpeg"@[6] == 'j');
    assert("image/jp2"@.len() == 9 && "image/jpx"@.len() == 9 && "image/jpeg"@.len() == 10);
    assert("image/jp2"@[6] == 'j' && "image/jpx"@[6] == 'j' && "image/png"@[6] == 'p');
    assert(".jpg"@ =~= seq!['.'] + "jpg"@);
    assert(".png"@ =~= seq!['.'] + "png"@);
    assert(".webp"@ =~= seq!['.'] + "webp"@);
    assert(".gif"@ =~= seq!['.'] + "gif"@);
    assert(".bmp"@ =~= seq!['.'] + "bmp"@);
    assert(".tiff"@ =~= seq!['.'] + "tiff"@);
    assert(".jp2"@ =~= seq!['.'] + "jp2"@);
}

proof fn lemma_new_ending(name: Seq<char>, ext: Seq<char>, ending: Seq<char>)
    requires
        ending == seq!['.'] + ext,
    ensures
        ends_with(with_extension(name, ext), ending),
{
    let r = with_extension(name, ext);
    let stem = match last_index(name, '.') {
        Some(i) => if is_extension(name.skip(i as int + 1)) {
            name.take(i as int)
        } else {
            name
        },
        None => name,
    };
    assert(r == stem.push('.') + ext);
    assert(r =~= stem + ending);
    assert(r.skip(r.len() - ending.len()) =~= ending);
}

/// A picture's alternative text names it and its number; what it said before follows on one
/// line, if it said anything.
pub proof fn law_pictures_are_numbered(original: Seq<char>, number: usize)
    ensures
        starts_with(alt_text(original, Some(number)), "图片"@ + decimal(number as nat)),
        starts_with(alt_text(original, None), "图片"@),
        words(original).len() == 0 ==> alt_text(original, Some(number)) == "图片"@ + decimal(
            number as nat,
        ) && alt_text(original, None) == "图片"@,
        words(original).len() > 0 ==> alt_text(original, Some(number)).len() > ("图片"@ + decimal(
            number as nat,
        )).len() && alt_text(original, None).len() > "图片"@.len(),
{
    reveal_strlit("：");
    let a = alt_text(original, Some(number));
    let label = "图片"@ + decimal(number as nat);
    assert(a.subrange(0, label.len() as int) =~= label);
    let b = alt_text(original, None);
    assert(b.subrange(0, "图片"@.len() as int) =~= "图片"@);
    if words(original).len() > 0 {
        lemma_flat_shows(original);
    }
}

proof fn lemma_flat_shows(original: Seq<char>)
    requires
        words(original).len() > 0,
    ensures
        flat(original).len() > 0,
{
    law_words_keep_the_visible_text(original);
    let parts = words(original);
    let at = law_joined_parts_stand_in_order(parts, " "@, 0);
    assert(parts[0].len() > 0);
}

/// An annotation quotes what was recognized: a heading with the picture's label, an empty
/// quoted line, and then every line of the text behind a mark, without the white space at
/// its end. Where nothing was recognized, it says so in one line.
pub proof fn law_annotations_quote_the_text(label: Seq<char>, text: Option<Seq<char>>)
    ensures
        ({
            let all = annotation_lines(label, text);
            let said = match text {
                Some(t) => if is_blank(t) {
                    "（OCR识别失败）"@
                } else {
                    trim(t)
                },
                None => "（OCR识别失败）"@,
            };
            &&& figure_annotation(label, text) == joined(all, "\n"@)
            &&& all.len() == lines(said).len() + 2
            &&& all[0] == "> 图片"@ + label + "的OCR解析结果如下："@
            &&& all[1] == ">"@
            &&& forall|i: int|
                0 <= i < lines(said).len() ==> #[trigger] all[i + 2] == if is_blank(lines(said)[i]) {
                    ">"@
                } else {
                    "> "@ + trim_end(lines(said)[i])
                }
        }),
{
    if let Some(t) = text {
        law_trimming_cuts_white_space_only(t);
        lemma_blank(t);
    }
    let all = annotation_lines(label, text);
    let body = lines(crate::ocr::image_pass::annotation_body(text));
    assert forall|i: int| 0 <= i < body.len() implies #[trigger] all[i + 2] == if is_blank(body[i]) {
        ">"@
    } else {
        "> "@ + trim_end(body[i])
    } by {
        assert(all[i + 2] == quote_line(body[i]));
        lemma_trim_end_shape(body[i]);
        if is_blank(body[i]) && trim_end(body[i]).len() > 0 {
            assert(trim_end(body[i]).last() == body[i][trim_end(body[i]).len() - 1]);
        }
    }
}

proof fn lemma_blank(t: Seq<char>)
    ensures
        is_blank(t) <==> trim(t).len() == 0,
{
    law_trimming_cuts_white_space_only(t);
}

// ---------------------------------------------------------------------------
// Jobs
// ---------------------------------------------------------------------------
/// A configuration is valid when it has an endpoint, names a model of one of the two
/// families if it names one, and sets no field that the request sets itself.
pub proof fn law_valid_configurations(config: PaddleOcrConfig)
    ensures
        config_error(config) is None <==> {
            &&& exists|i: int|
                0 <= i < config.endpoint@.len() && !is_white(#[trigger] config.endpoint@[i])
            &&& config.model matches Some(model) ==> starts_with(trim(model@), "PaddleOCR-VL"@)
                || starts_with(trim(model@), "PP-StructureV3"@)
            &&& forall|k: int|
                0 <= k < config.optional_payload@.len() ==> ({
                    let key = (#[trigger] config.optional_payload@[k]).0@;
                    key != "file"@ && key != "fileUrl"@ && key != "model"@ && key != "lang"@ && key
                        != "pageRanges"@
                })
        },
{
    let shown = exists|i: int|
        0 <= i < config.endpoint@.len() && !is_white(#[trigger] config.endpoint@[i]);
    assert(shown <==> !is_blank(config.endpoint@));
    lemma_first_reserved(config.optional_payload@);
}

proof fn lemma_first_reserved(fields: Seq<(String, crate::json::Json)>)
    ensures
        first_reserved(fields) is None <==> forall|k: int|
            0 <= k < fields.len() ==> !reserved_key((#[trigger] fields[k]).0@),
    decreases fields.len(),
{
    if fields.len() > 0 {
        let rest = fields.drop_first();
        lemma_first_reserved(rest);
        if first_reserved(fields) is None {
            assert forall|k: int| 0 <= k < fields.len() implies !reserved_key(
                (#[trigger] fields[k]).0@,
            ) by {
                if k > 0 {
                    assert(rest[k - 1] == fields[k]);
                }
            }
        } else if reserved_key(fields[0].0@) {
            assert(fields.first() == fields[0]);
        } else {
            let k = choose|k: int| 0 <= k < rest.len() && reserved_key((#[trigger] rest[k]).0@);
            assert(fields[k + 1] == rest[k]);
        }
    }
}

/// What an answer to a submission leads to: a job is known by the text at `data.jobId`, and
/// a failure may be tried again only where the server was busy or failed.
pub proof fn law_submissions_give_a_job(exchange: Exchange)
    ensures
        submit_outcome(exchange, true) is Some,
        exchange matches Exchange::Reply(reply) ==> {
            let r = submit_outcome(exchange, true)->0;
            &&& is_success(reply.status) && body_json(reply.body) is Ok && as_text(
                json_pointer(body_json(reply.body)->Ok_0, seq!["data", "jobId"]),
            ) is Some ==> r == Ok::<Seq<char>, OcrErrorView>(
                as_text(json_pointer(body_json(reply.body)->Ok_0, seq!["data", "jobId"]))->0,
            )
            &&& r is Ok ==> 200 <= reply.status <= 299
            &&& !is_success(reply.status) ==> (r matches Err(e) && (e.retryable <==> 500
                <= reply.status <= 599 || reply.status == 429))
        },
        exchange is Broken ==> (submit_outcome(exchange, true)->0 matches Err(e) && e.retryable),
{
}

/// While a job runs it is asked about every two seconds, after five where there were too
/// many requests. It ends with the address of the result when it is done, with an error
/// when it failed, and with an error when it may not be asked about.
pub proof fn law_jobs_are_polled_to_the_end(exchange: Exchange)
    ensures
        exchange is Broken ==> poll_outcome(exchange) == PollView::Wait(2_000),
        exchange matches Exchange::Reply(reply) ==> {
            &&& reply.status == 429 ==> poll_outcome(exchange) == PollView::Wait(5_000)
            &&& 500 <= reply.status <= 599 ==> poll_outcome(exchange) == PollView::Wait(2_000)
            &&& (reply.status < 200 || 299 < reply.status < 500 || reply.status > 599)
                && reply.status != 429 ==> (poll_outcome(exchange) matches PollView::Done(Err(e))
                && !e.retryable)
            &&& 200 <= reply.status <= 299 && body_json(reply.body) is Ok ==> {
                let answer = body_json(reply.body)->Ok_0;
                let state = as_text(json_pointer(answer, seq!["data", "state"]));
                let url = as_text(json_pointer(answer, seq!["data", "resultUrl", "jsonUrl"]));
                &&& state == Some("done"@) && url is Some ==> poll_outcome(exchange)
                    == PollView::Done(Ok::<Seq<char>, OcrErrorView>(url->0))
                &&& state == Some("done"@) && url is None ==> (poll_outcome(
                    exchange,
                ) matches PollView::Done(Err(e)))
                &&& state == Some("failed"@) ==> (poll_outcome(
                    exchange,
                ) matches PollView::Done(Err(e)) && !e.retryable)
                &&& state != Some("done"@) && state != Some("failed"@) ==> poll_outcome(exchange)
                    == PollView::Wait(2_000)
            }
        },
{
    reveal_strlit("done");
    reveal_strlit("failed");
    assert("done"@.len() != "failed"@.len());
}

/// The texts of a list of items are those of its parts, one behind the other; an item gives
/// its trimmed text, unless that is missing or blank.
pub proof fn law_items_give_their_texts(a: Seq<JsonView>, b: Seq<JsonView>, item: JsonView)
    ensures
        item_texts(a + b) == item_texts(a) + item_texts(b),
        ({
            let t = as_text(json_pointer(item, seq!["markdown", "text"]));
            item_texts(seq![item]) == if t is None || is_blank(t->0) {
                Seq::<Seq<char>>::empty()
            } else {
                seq![trim(t->0)]
            }
        }),
    decreases b.len(),
{
    assert(seq![item].drop_last() =~= Seq::<JsonView>::empty());
    assert(item_texts(Seq::<JsonView>::empty()) =~= Seq::<Seq<char>>::empty());
    let t = as_text(json_pointer(item, seq!["markdown", "text"]));
    if t is Some && !is_blank(t->0) {
        assert(item_texts(seq![item]) =~= seq![trim(t->0)]);
    }
    if b.len() == 0 {
        assert(a + b =~= a);
        assert(item_texts(a) + item_texts(b) =~= item_texts(a));
    } else {
        assert((a + b).drop_last() =~= a + b.drop_last());
        law_items_give_their_texts(a, b.drop_last(), item);
        assert(item_texts(a + b) =~= item_texts(a) + item_texts(b));
    }
}

/// The pages of a result are those of its lines, one behind the other. A blank line adds
/// nothing, and a line that is no JSON or holds no results spoils the whole.
pub proof fn law_lines_add_their_pages(all: Seq<Seq<char>>, n: nat)
    requires
        n < all.len(),
    ensures
        pages_upto(all, 0) == Ok::<Seq<Seq<char>>, OcrErrorView>(Seq::empty()),
        pages_upto(all, n) is Err ==> pages_upto(all, n + 1) is Err,
        pages_upto(all, n) is Ok ==> {
            let before = pages_upto(all, n)->Ok_0;
            let line = all[n as int];
            &&& is_blank(line) ==> pages_upto(all, n + 1) == Ok::<Seq<Seq<char>>, OcrErrorView>(
                before,
            )
            &&& !is_blank(line) && json_parsed(trim(line)) is Err ==> pages_upto(all, n + 1) is Err
            &&& !is_blank(line) && json_parsed(trim(line)) is Ok ==> {
                let items = as_items(
                    json_pointer(
                        json_parsed(trim(line))->Ok_0,
                        seq!["result", "layoutParsingResults"],
                    ),
                );
                &&& items is None ==> pages_upto(all, n + 1) is Err
                &&& items is Some ==> pages_upto(all, n + 1) == Ok::<Seq<Seq<char>>, OcrErrorView>(
                    before + item_texts(items->0),
                )
            }
        },
{
}

/// A recognized document is its pages in order, with an empty line in between and a line
/// feed at the end; without a page there is none.
pub proof fn law_pages_come_in_order(pages: Seq<Seq<char>>, i: int) -> (at: int)
    requires
        0 <= i < pages.len(),
    ensures
        pages_markdown(Seq::empty()) is Err,
        pages_markdown(pages) is Ok,
        ({
            let m = pages_markdown(pages)->Ok_0;
            &&& occurs_at(m, pages[i], at)
            &&& i == 0 ==> at == 0
            &&& i < pages.len() - 1 ==> m[at + pages[i].len()] == '\n' && m[at + pages[i].len() + 1]
                == '\n'
            &&& i == pages.len() - 1 ==> m.len() == at + pages[i].len() + 1 && m.last() == '\n'
        }),
{
    reveal_strlit("\n\n");
    reveal_strlit("\n");
    let whole = joined(pages, "\n\n"@);
    let m = pages_markdown(pages)->Ok_0;
    let at = law_joined_parts_stand_in_order(pages, "\n\n"@, i);
    let end = at + pages[i].len();
    assert(m.subrange(at, end) =~= whole.subrange(at, end));
    if i < pages.len() - 1 {
        assert(whole.subrange(end, end + 2) == "\n\n"@);
        assert(m[end] == whole.subrange(end, end + 2)[0]);
        assert(m[end + 1] == whole.subrange(end, end + 2)[1]);
    }
    at
}

/// A result is read from what was downloaded; a download that failed may be tried again.
pub proof fn law_downloads_are_read(download: Download)
    ensures
        download matches Download::Body(body) ==> {
            let all = lines(body@);
            &&& download_outcome(download) is Ok <==> pages_upto(all, all.len()) is Ok
                && pages_upto(all, all.len())->Ok_0.len() > 0
            &&& download_outcome(download) is Ok ==> download_outcome(download) == pages_markdown(
                pages_upto(all, all.len())->Ok_0,
            )
        },
        !(download is Body) ==> (download_outcome(download) matches Err(e) && e.retryable),
{
}

} // verus!
