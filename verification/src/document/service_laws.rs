//! What is sent to the services that documents need, what is made of their answers, and
//! what is fetched.

use crate::document::fetch::{
    blocked_v6, disposition_name, download_name, filename_param, first_filename, head_outcome,
    is_blocked, is_quote, unquoted, unquoted_end, unquoted_start, url_joined, url_target, IpAddress,
    ReplyHead, UrlView,
};
use crate::document::names::{path_extension, path_file_name, path_stem};
use crate::document::provider::{OcrOptions, ProviderInput};
use crate::document::providers::{
    header_error, nonzero_integer, number_items, page_body, page_numbers, page_scores,
    page_sections, paddle_reply, put_optional, recognize_outcome, reply_value, request_fields,
    text_items, vision_body, PaddleOcrConfig, RecognizeView,
};
use crate::file_parser::runtime::base64_text;
use crate::http::{body_json, is_header_name, is_header_value, Exchange};
use crate::json::{
    as_items, as_text, fields_depth, fields_view, find_field, item_named, items_depth, json_depth,
    json_get, json_pointer, put_field, Json, JsonView,
};
use crate::text::{decimal, joined, lemma_decimal_injective, lower, split, trim};
use crate::text_laws::law_last_index_is_the_last;
use vstd::prelude::*;

verus! {

// ---------------------------------------------------------------------------
// Requests
// ---------------------------------------------------------------------------
/// A field that was put is found, and every other one is as before.
pub proof fn law_fields_are_found_again(
    fields: Seq<(Seq<char>, JsonView)>,
    key: Seq<char>,
    value: JsonView,
    other: Seq<char>,
)
    ensures
        find_field(put_field(fields, key, value), other) == if other == key {
            Some(value)
        } else {
            find_field(fields, other)
        },
        find_field(fields, key) is Some ==> put_field(fields, key, value).len() == fields.len(),
        find_field(fields, key) is None ==> put_field(fields, key, value).len() == fields.len() + 1,
    decreases fields.len(),
{
    let r = put_field(fields, key, value);
    if fields.len() == 0 {
        assert(r.drop_first() =~= Seq::<(Seq<char>, JsonView)>::empty());
        assert(r.first() == (key, value));
        assert(find_field(r.drop_first(), other) is None);
    } else if fields.first().0 == key {
        assert(r.drop_first() =~= fields.drop_first());
        assert(r.first() == (key, value));
    } else {
        law_fields_are_found_again(fields.drop_first(), key, value, other);
        assert(r.drop_first() =~= put_field(fields.drop_first(), key, value));
        assert(r.first() == fields.first());
    }
}

/// The first field of a name counts.
pub proof fn law_the_first_field_counts(fields: Seq<(Seq<char>, JsonView)>, key: Seq<char>) -> (at:
    int)
    ensures
        match find_field(fields, key) {
            Some(value) => {
                &&& 0 <= at < fields.len()
                &&& fields[at] == (key, value)
                &&& forall|i: int| 0 <= i < at ==> (#[trigger] fields[i]).0 != key
            },
            None => forall|i: int| 0 <= i < fields.len() ==> (#[trigger] fields[i]).0 != key,
        },
    decreases fields.len(),
{
    if fields.len() == 0 || fields.first().0 == key {
        0
    } else {
        let rest = fields.drop_first();
        let at = law_the_first_field_counts(rest, key);
        let upto = if find_field(fields, key) is Some {
            at + 1
        } else {
            fields.len() as int
        };
        assert forall|i: int| 0 <= i < upto implies (#[trigger] fields[i]).0 != key by {
            if i > 0 {
                assert(rest[i - 1] == fields[i]);
            }
        }
        if find_field(fields, key) is Some {
            assert(rest[at] == fields[at + 1]);
        }
        at + 1
    }
}

/// An item of a list is found under the number of its place, counted from zero.
pub proof fn law_items_are_found_by_their_place(items: Seq<JsonView>, i: int)
    requires
        0 <= i < items.len(),
    ensures
        item_named(items, decimal(i as nat)) == Some(items[i]),
    decreases items.len(),
{
    let n = items.len() - 1;
    if i < n {
        if decimal(i as nat) == decimal(n as nat) {
            lemma_decimal_injective(i as nat, n as nat);
        }
        law_items_are_found_by_their_place(items.drop_last(), i);
        assert(items.drop_last()[i] == items[i]);
    }
}

/// A list is one deeper than the deepest of its items, and so is an object with its fields.
pub proof fn law_depth_counts_the_levels(items: Seq<Json>, fields: Seq<(String, Json)>)
    ensures
        forall|i: int| 0 <= i < items.len() ==> json_depth(#[trigger] items[i]) <= items_depth(items),
        items_depth(items) > 0 ==> exists|i: int|
            0 <= i < items.len() && json_depth(#[trigger] items[i]) == items_depth(items),
        forall|i: int|
            0 <= i < fields.len() ==> json_depth((#[trigger] fields[i]).1) <= fields_depth(fields),
        fields_depth(fields) > 0 ==> exists|i: int|
            0 <= i < fields.len() && json_depth((#[trigger] fields[i]).1) == fields_depth(fields),
        forall|v: Vec<Json>| #[trigger] json_depth(Json::Array(v)) == 1 + items_depth(v@),
        forall|v: Vec<(String, Json)>| #[trigger]
            json_depth(Json::Object(v)) == 1 + fields_depth(v@),
    decreases items.len() + fields.len(),
{
    if items.len() > 0 {
        let front = items.drop_last();
        let n = items.len() - 1;
        law_depth_counts_the_levels(front, fields);
        assert forall|i: int| 0 <= i < items.len() implies json_depth(#[trigger] items[i])
            <= items_depth(items) by {
            if i < n {
                assert(front[i] == items[i]);
            }
        }
        if items_depth(items) > 0 {
            if json_depth(items[n]) > items_depth(front) {
                assert(json_depth(items[n]) == items_depth(items));
            } else {
                let i = choose|i: int|
                    0 <= i < front.len() && json_depth(#[trigger] front[i]) == items_depth(front);
                assert(items[i] == front[i]);
            }
        }
    } else if fields.len() > 0 {
        let front = fields.drop_last();
        let n = fields.len() - 1;
        law_depth_counts_the_levels(items, front);
        assert forall|i: int| 0 <= i < fields.len() implies json_depth((#[trigger] fields[i]).1)
            <= fields_depth(fields) by {
            if i < n {
                assert(front[i] == fields[i]);
            }
        }
        if fields_depth(fields) > 0 {
            if json_depth(fields[n].1) > fields_depth(front) {
                assert(json_depth(fields[n].1) == fields_depth(fields));
            } else {
                let i = choose|i: int|
                    0 <= i < front.len() && json_depth((#[trigger] front[i]).1) == fields_depth(
                        front,
                    );
                assert(fields[i] == front[i]);
            }
        }
    }
}

/// A setting that was made, or else what the extra parameters say.
pub open spec fn setting(
    extra: Seq<(Seq<char>, JsonView)>,
    key: Seq<char>,
    value: Option<bool>,
) -> Option<JsonView> {
    match value {
        Some(b) => Some(JsonView::Bool(b)),
        None => find_field(extra, key),
    }
}

/// A request for recognition holds the file and its type, the settings, the language and the
/// pages that were asked for; everything else is as the extra parameters say.
pub proof fn law_requests_hold_what_was_asked(
    config: PaddleOcrConfig,
    input: ProviderInput,
    options: OcrOptions,
    other: Seq<char>,
)
    ensures
        ({
            let extra = fields_view(config.extra_params@);
            let sent = request_fields(config, input, options);
            &&& find_field(sent, "file"@) == Some(JsonView::Text(base64_text(input.bytes@)))
            &&& find_field(sent, "fileType"@) == Some(
                JsonView::Number(
                    if input.mime_type@ == "application/pdf"@ {
                        decimal(0)
                    } else {
                        decimal(1)
                    },
                ),
            )
            &&& find_field(sent, "useDocOrientationClassify"@) == setting(
                extra,
                "useDocOrientationClassify"@,
                config.use_doc_orientation_classify,
            )
            &&& find_field(sent, "useDocUnwarping"@) == setting(
                extra,
                "useDocUnwarping"@,
                config.use_doc_unwarping,
            )
            &&& find_field(sent, "useTextlineOrientation"@) == setting(
                extra,
                "useTextlineOrientation"@,
                config.use_textline_orientation,
            )
            &&& options.language matches Some(language) ==> find_field(sent, "lang"@) == Some(
                JsonView::Text(language@),
            )
            &&& options.language is None ==> find_field(sent, "lang"@) == find_field(
                extra,
                "lang"@,
            )
            &&& options.page_numbers@.len() == 0 ==> find_field(sent, "pageNumbers"@) == find_field(
                extra,
                "pageNumbers"@,
            )
            &&& options.page_numbers@.len() > 0 ==> (as_items(find_field(sent, "pageNumbers"@))
                matches Some(pages) && pages.len() == options.page_numbers@.len() && forall|i: int|
                0 <= i < pages.len() ==> #[trigger] pages[i] == JsonView::Number(
                    decimal(options.page_numbers@[i] as nat),
                ))
            &&& other != "file"@ && other != "fileType"@ && other != "useDocOrientationClassify"@
                && other != "useDocUnwarping"@ && other != "useTextlineOrientation"@ && other
                != "lang"@ && other != "pageNumbers"@ ==> find_field(sent, other) == find_field(
                extra,
                other,
            )
        }),
{
    lemma_keys();
    lemma_sent(config, input, options, "file"@);
    lemma_sent(config, input, options, "fileType"@);
    lemma_sent(config, input, options, "useDocOrientationClassify"@);
    lemma_sent(config, input, options, "useDocUnwarping"@);
    lemma_sent(config, input, options, "useTextlineOrientation"@);
    lemma_sent(config, input, options, "lang"@);
    lemma_sent(config, input, options, "pageNumbers"@);
    lemma_sent(config, input, options, other);
}

proof fn lemma_keys()
    ensures
        "file"@.len() == 4,
        "fileType"@.len() == 8,
        "useDocOrientationClassify"@.len() == 25,
        "useDocUnwarping"@.len() == 15,
        "useTextlineOrientation"@.len() == 22,
        "lang"@.len() == 4,
        "file"@[0] != "lang"@[0],
        "pageNumbers"@.len() == 11,
{
    reveal_strlit("file");
    reveal_strlit("fileType");
    reveal_strlit("useDocOrientationClassify");
    reveal_strlit("useDocUnwarping");
    reveal_strlit("useTextlineOrientation");
    reveal_strlit("lang");
    reveal_strlit("pageNumbers");
}

/// What each of the fields was put as, last one first.
proof fn lemma_sent(config: PaddleOcrConfig, input: ProviderInput, options: OcrOptions, key: Seq<
    char,
>)
    ensures
        find_field(request_fields(config, input, options), key) == if key == "pageNumbers"@
            && options.page_numbers@.len() > 0 {
            Some(JsonView::Array(page_numbers(options.page_numbers@)))
        } else if key == "lang"@ && options.language is Some {
            Some(JsonView::Text(options.language->0@))
        } else if key == "useTextlineOrientation"@ && config.use_textline_orientation is Some {
            Some(JsonView::Bool(config.use_textline_orientation->0))
        } else if key == "useDocUnwarping"@ && config.use_doc_unwarping is Some {
            Some(JsonView::Bool(config.use_doc_unwarping->0))
        } else if key == "useDocOrientationClassify"@ && config.use_doc_orientation_classify is Some {
            Some(JsonView::Bool(config.use_doc_orientation_classify->0))
        } else if key == "fileType"@ {
            Some(
                JsonView::Number(
                    if input.mime_type@ == "application/pdf"@ {
                        decimal(0)
                    } else {
                        decimal(1)
                    },
                ),
            )
        } else if key == "file"@ {
            Some(JsonView::Text(base64_text(input.bytes@)))
        } else {
            find_field(fields_view(config.extra_params@), key)
        },
{
    let f0 = fields_view(config.extra_params@);
    let file = JsonView::Text(base64_text(input.bytes@));
    law_fields_are_found_again(f0, "file"@, file, key);
    let f1 = put_field(f0, "file"@, file);
    let kind = JsonView::Number(
        decimal(if input.mime_type@ == "application/pdf"@ {
            0
        } else {
            1
        }),
    );
    law_fields_are_found_again(f1, "fileType"@, kind, key);
    let f2 = put_field(f1, "fileType"@, kind);
    let f3 = put_optional(f2, "useDocOrientationClassify", config.use_doc_orientation_classify);
    if let Some(b) = config.use_doc_orientation_classify {
        law_fields_are_found_again(f2, "useDocOrientationClassify"@, JsonView::Bool(b), key);
    }
    let f4 = put_optional(f3, "useDocUnwarping", config.use_doc_unwarping);
    if let Some(b) = config.use_doc_unwarping {
        law_fields_are_found_again(f3, "useDocUnwarping"@, JsonView::Bool(b), key);
    }
    let f5 = put_optional(f4, "useTextlineOrientation", config.use_textline_orientation);
    if let Some(b) = config.use_textline_orientation {
        law_fields_are_found_again(f4, "useTextlineOrientation"@, JsonView::Bool(b), key);
    }
    let f6 = match options.language {
        Some(language) => put_field(f5, "lang"@, JsonView::Text(language@)),
        None => f5,
    };
    if let Some(language) = options.language {
        law_fields_are_found_again(f5, "lang"@, JsonView::Text(language@), key);
    }
    if options.page_numbers@.len() > 0 {
        law_fields_are_found_again(
            f6,
            "pageNumbers"@,
            JsonView::Array(page_numbers(options.page_numbers@)),
            key,
        );
    }
}

proof fn lemma_two(a: (Seq<char>, JsonView), b: (Seq<char>, JsonView))
    requires
        a.0 != b.0,
    ensures
        find_field(seq![a, b], a.0) == Some(a.1),
        find_field(seq![a, b], b.0) == Some(b.1),
{
    let s = seq![a, b];
    assert(s.first() == a);
    assert(s.drop_first() =~= seq![b]);
    assert(seq![b].first() == b);
    assert(find_field(seq![b], b.0) == Some(b.1));
}

/// A request for a description has one message of the user, which says what to do and shows
/// the picture.
pub proof fn law_descriptions_show_the_picture(model: Seq<char>, url: Seq<char>)
    ensures
        ({
            let body = vision_body(model, url);
            let messages = as_items(json_get(body, "messages"@));
            &&& json_get(body, "model"@) == Some(JsonView::Text(model))
            &&& messages matches Some(all) && all.len() == 1 && json_get(all[0], "role"@) == Some(
                JsonView::Text("user"@),
            ) && (as_items(json_get(all[0], "content"@)) matches Some(parts) && parts.len() == 2
                && json_get(parts[0], "type"@) == Some(JsonView::Text("text"@)) && as_text(
                json_get(parts[0], "text"@),
            ) is Some && json_get(parts[1], "type"@) == Some(JsonView::Text("image_url"@)) && (
            json_get(parts[1], "image_url"@) matches Some(image) && json_get(image, "url"@) == Some(
                JsonView::Text(url),
            )))
        }),
{
    reveal_strlit("model");
    reveal_strlit("messages");
    reveal_strlit("role");
    reveal_strlit("content");
    reveal_strlit("type");
    reveal_strlit("text");
    reveal_strlit("image_url");
    reveal_strlit("url");
    assert("model"@.len() != "messages"@.len());
    assert("role"@.len() != "content"@.len());
    assert("type"@[1] != "text"@[1]);
    assert("type"@.len() != "image_url"@.len());
    let body = vision_body(model, url);
    let fields = body->Object_0;
    lemma_two(fields[0], fields[1]);
    assert(fields =~= seq![fields[0], fields[1]]);
    let messages = fields[1].1->Array_0;
    let message = messages[0]->Object_0;
    lemma_two(message[0], message[1]);
    assert(message =~= seq![message[0], message[1]]);
    let parts = message[1].1->Array_0;
    let words = parts[0]->Object_0;
    lemma_two(words[0], words[1]);
    assert(words =~= seq![words[0], words[1]]);
    let picture = parts[1]->Object_0;
    lemma_two(picture[0], picture[1]);
    assert(picture =~= seq![picture[0], picture[1]]);
    let image = picture[1].1->Object_0;
    assert(image.first() == image[0]);
    assert(image[0].0 == "url"@);
}

/// Headers are accepted when every name and every value is valid.
pub proof fn law_headers_are_all_checked(headers: Seq<(String, String)>)
    ensures
        header_error(headers) is None <==> forall|i: int|
            0 <= i < headers.len() ==> is_header_name((#[trigger] headers[i]).0@)
                && is_header_value(headers[i].1@),
    decreases headers.len(),
{
    if headers.len() > 0 {
        let rest = headers.drop_first();
        law_headers_are_all_checked(rest);
        if header_error(headers) is None {
            assert forall|i: int| 0 <= i < headers.len() implies is_header_name(
                (#[trigger] headers[i]).0@,
            ) && is_header_value(headers[i].1@) by {
                if i > 0 {
                    assert(rest[i - 1] == headers[i]);
                }
            }
        } else if is_header_name(headers[0].0@) && is_header_value(headers[0].1@) {
            let i = choose|i: int|
                0 <= i < rest.len() && !(is_header_name((#[trigger] rest[i]).0@) && is_header_value(
                    rest[i].1@,
                ));
            assert(headers[i + 1] == rest[i]);
        }
    }
}

// ---------------------------------------------------------------------------
// Answers
// ---------------------------------------------------------------------------
/// What was recognized on a page: the Markdown, or else the recognized lines, or else the
/// text.
pub open spec fn page_value(result: JsonView) -> Option<JsonView> {
    if json_get(result, "markdown"@) is Some {
        json_get(result, "markdown"@)
    } else if json_get(result, "rec_texts"@) is Some {
        json_get(result, "rec_texts"@)
    } else {
        json_get(result, "text"@)
    }
}

/// A page shows its text, or its lines of text one below the other.
pub proof fn law_pages_show_what_was_recognized(result: JsonView)
    ensures
        match page_value(result) {
            Some(JsonView::Text(t)) => page_body(result) == t,
            Some(JsonView::Array(items)) => page_body(result) == joined(text_items(items), "\n"@),
            _ => page_body(result).len() == 0,
        },
{
}

/// The texts and the numbers of a list are those of its parts, one behind the other;
/// whatever is neither is left out.
pub proof fn law_lists_give_their_entries(a: Seq<JsonView>, b: Seq<JsonView>, item: JsonView)
    ensures
        text_items(a + b) == text_items(a) + text_items(b),
        number_items(a + b) == number_items(a) + number_items(b),
        text_items(seq![item]) == match item {
            JsonView::Text(t) => seq![t],
            _ => Seq::<Seq<char>>::empty(),
        },
        number_items(seq![item]) == match item {
            JsonView::Number(n) => seq![n],
            _ => Seq::<Seq<char>>::empty(),
        },
    decreases b.len(),
{
    assert(seq![item].drop_last() =~= Seq::<JsonView>::empty());
    assert(seq![item].last() == item);
    assert(text_items(Seq::<JsonView>::empty()) =~= Seq::<Seq<char>>::empty());
    assert(number_items(Seq::<JsonView>::empty()) =~= Seq::<Seq<char>>::empty());
    match item {
        JsonView::Text(t) => {
            assert(text_items(seq![item]) =~= seq![t]);
        },
        JsonView::Number(n) => {
            assert(number_items(seq![item]) =~= seq![n]);
        },
        _ => {},
    }
    if b.len() == 0 {
        assert(a + b =~= a);
        assert(text_items(a) + text_items(b) =~= text_items(a));
        assert(number_items(a) + number_items(b) =~= number_items(a));
    } else {
        assert((a + b).drop_last() =~= a + b.drop_last());
        assert((a + b).last() == b.last());
        law_lists_give_their_entries(a, b.drop_last(), item);
        assert(text_items(a + b) =~= text_items(a) + text_items(b));
        assert(number_items(a + b) =~= number_items(a) + number_items(b));
    }
}

/// The scores of the pages are collected in order.
pub proof fn law_scores_are_collected(a: Seq<JsonView>, b: Seq<JsonView>, result: JsonView)
    ensures
        page_scores(a + b) == page_scores(a) + page_scores(b),
        page_scores(seq![result]) == match as_items(json_get(result, "rec_scores"@)) {
            Some(items) => number_items(items),
            None => Seq::<Seq<char>>::empty(),
        },
    decreases b.len(),
{
    assert(seq![result].drop_last() =~= Seq::<JsonView>::empty());
    assert(seq![result].last() == result);
    assert(page_scores(Seq::<JsonView>::empty()) =~= Seq::<Seq<char>>::empty());
    if let Some(items) = as_items(json_get(result, "rec_scores"@)) {
        assert(page_scores(seq![result]) =~= number_items(items));
    }
    if b.len() == 0 {
        assert(a + b =~= a);
        assert(page_scores(a) + page_scores(b) =~= page_scores(a));
    } else {
        assert((a + b).drop_last() =~= a + b.drop_last());
        assert((a + b).last() == b.last());
        law_scores_are_collected(a, b.drop_last(), result);
        assert(page_scores(a + b) =~= page_scores(a) + page_scores(b));
    }
}

/// An answer that reports an error other than zero is refused; any other one gives the
/// pages in order, each under a heading with its number.
pub proof fn law_answers_give_numbered_pages(value: JsonView)
    ensures
        ({
            let code = json_get(value, "errorCode"@);
            let results = as_items(json_pointer(value, seq!["result", "ocrResults"]));
            let refused = code is Some && code->0 is Number && nonzero_integer(code->0->Number_0);
            &&& refused ==> (paddle_reply(value) matches Err(e) && !e.retryable)
            &&& !refused && results is None ==> (paddle_reply(value) matches Err(e)
                && !e.retryable)
            &&& !refused && results is Some ==> (paddle_reply(value) matches Ok(output)
                && output.markdown == joined(page_sections(results->0), "\n\n"@)
                && output.scores == page_scores(results->0))
            &&& results matches Some(all) ==> {
                &&& page_sections(all).len() == all.len()
                &&& forall|i: int|
                    0 <= i < all.len() ==> #[trigger] page_sections(all)[i] == "## Page "@
                        + decimal((i + 1) as nat) + "\n\n"@ + trim(page_body(all[i]))
            }
        }),
{
}

/// A failed exchange is tried again only while attempts are left, and only where the server
/// was busy, failed or could not be reached; a good answer is read at once.
pub proof fn law_good_answers_are_read_at_once(exchange: Exchange, attempt: u8, attempts: u8)
    ensures
        recognize_outcome(exchange, attempt, attempts) is RetryAfter <==> {
            &&& attempt + 1 < attempts
            &&& match exchange {
                Exchange::Broken(_) => true,
                Exchange::Reply(reply) => 500 <= reply.status <= 599 || reply.status == 429,
            }
        },
        exchange matches Exchange::Reply(reply) ==> {
            &&& 200 <= reply.status <= 299 && body_json(reply.body) is Ok ==> recognize_outcome(
                exchange,
                attempt,
                attempts,
            ) == RecognizeView::Done(paddle_reply(body_json(reply.body)->Ok_0))
            &&& !(200 <= reply.status <= 299) ==> !(recognize_outcome(
                exchange,
                attempt,
                attempts,
            ) matches RecognizeView::Done(Ok(_)))
        },
{
}

/// A service's answer is read where it succeeded; a failure may be tried again where the
/// server failed or could not be reached.
pub proof fn law_failures_say_whether_to_try_again(exchange: Exchange, what: Seq<char>)
    ensures
        match exchange {
            Exchange::Broken(_) => reply_value(exchange, what) matches Err(e) && e.retryable,
            Exchange::Reply(reply) => {
                &&& reply_value(exchange, what) is Ok <==> 200 <= reply.status <= 299 && body_json(
                    reply.body,
                ) is Ok
                &&& reply_value(exchange, what) matches Ok(v) ==> body_json(reply.body) == Ok::<
                    JsonView,
                    Seq<char>,
                >(v)
                &&& reply_value(exchange, what) matches Err(e) ==> (e.retryable <==> 500
                    <= reply.status <= 599)
            },
        },
{
}

// ---------------------------------------------------------------------------
// Fetching
// ---------------------------------------------------------------------------
/// An address as a number.
pub open spec fn v4_number(o: Seq<u8>) -> int {
    ((o[0] * 256 + o[1]) * 256 + o[2]) * 256 + o[3]
}

/// The address lies between the two.
pub open spec fn between(o: Seq<u8>, lo: int, hi: int) -> bool {
    lo <= v4_number(o) <= hi
}

/// The networks that are not fetched from: private, loopback and link-local ones, those set
/// aside for examples, and the two addresses at the ends.
pub proof fn law_private_networks_are_blocked(o: [u8; 4])
    ensures
        is_blocked(IpAddress::V4(o)) <==> {
            ||| between(o@, 0x0A00_0000, 0x0AFF_FFFF)
            ||| between(o@, 0xAC10_0000, 0xAC1F_FFFF)
            ||| between(o@, 0xC0A8_0000, 0xC0A8_FFFF)
            ||| between(o@, 0x7F00_0000, 0x7FFF_FFFF)
            ||| between(o@, 0xA9FE_0000, 0xA9FE_FFFF)
            ||| between(o@, 0, 0)
            ||| between(o@, 0xFFFF_FFFF, 0xFFFF_FFFF)
            ||| between(o@, 0xC000_0200, 0xC000_02FF)
            ||| between(o@, 0xC633_6400, 0xC633_64FF)
            ||| between(o@, 0xCB00_7100, 0xCB00_71FF)
        },
{
    assert(o@.len() == 4);
    let (a, b, c, d) = (o@[0], o@[1], o@[2], o@[3]);
    assert(v4_number(o@) == a * 0x100_0000 + b * 0x1_0000 + c * 0x100 + d);
}

/// Of the longer addresses, the unspecified one, the loopback one, the unique local and the
/// link-local ones.
pub proof fn law_local_addresses_are_blocked(s: [u16; 8])
    ensures
        is_blocked(IpAddress::V6(s)) <==> {
            ||| s@[0] == 0 && s@[1] == 0 && s@[2] == 0 && s@[3] == 0 && s@[4] == 0 && s@[5] == 0
                && s@[6] == 0 && (s@[7] == 0 || s@[7] == 1)
            ||| s@[0] / 0x200 == 0x7E
            ||| s@[0] / 0x40 == 0x3FA
        },
{
    assert(s@.len() == 8);
    if blocked_v6(s@) && crate::document::fetch::all_zero(s@, 7) {
        assert(s@[0] == 0 && s@[1] == 0 && s@[2] == 0 && s@[3] == 0 && s@[4] == 0 && s@[5] == 0
            && s@[6] == 0);
    }
}

/// Only pages of the web with a host are fetched; the port is the one of the address.
pub proof fn law_only_the_web_is_fetched(url: UrlView)
    ensures
        url_target(url) is Ok <==> (url.scheme == "http"@ || url.scheme == "https"@)
            && url.host is Some,
        url_target(url) matches Ok(target) ==> url.host == Some(target.0) && (url.port matches Some(
            p,
        ) ==> target.1 == p) && (url.port is None ==> target.1 == 443),
{
}

/// A redirection is followed to where it leads, five times at most; a body is read only of
/// an answer that succeeded and does not announce too much.
pub proof fn law_redirections_are_bounded(
    head: ReplyHead,
    current: Seq<char>,
    hop: usize,
    max_bytes: usize,
)
    ensures
        ({
            let r = head_outcome(head, current, hop, max_bytes);
            &&& r matches Ok(Some(next)) ==> hop < 5 && 300 <= head.status <= 399 && (
            head.location matches Some(to) && url_joined(current, to@) == Ok::<UrlView, Seq<char>>(
                next,
            ))
            &&& r == Ok::<
                Option<UrlView>,
                crate::document::runtime::RuntimeErrorView,
            >(None) <==> 200 <= head.status <= 299 && (head.content_length matches Some(n) ==> n
                <= max_bytes)
            &&& 300 <= head.status <= 399 && hop < 5 && head.location is Some && url_joined(
                current,
                head.location->0@,
            ) is Ok ==> r is Ok
        }),
{
}

proof fn lemma_unquoted(s: Seq<char>)
    requires
        s.len() > 0 ==> !is_quote(s.first()) && !is_quote(s.last()),
    ensures
        unquoted(s) == s,
        unquoted(seq!['"'] + s + seq!['"']) == s,
        unquoted(seq!['\''] + s + seq!['\'']) == s,
{
    assert(unquoted(s) == s);
    lemma_unquoted_by(s, '"');
    lemma_unquoted_by(s, '\'');
}

proof fn lemma_unquoted_by(s: Seq<char>, q: char)
    requires
        s.len() > 0 ==> !is_quote(s.first()) && !is_quote(s.last()),
        is_quote(q),
    ensures
        unquoted(seq![q] + s + seq![q]) == s,
{
    let t = seq![q] + s + seq![q];
    assert(t.first() == q);
    let u = t.drop_first();
    assert(u =~= s + seq![q]);
    assert(unquoted_start(t) == unquoted_start(u));
    if s.len() == 0 {
        assert(u =~= seq![q]);
        assert(u.first() == q);
        assert(u.drop_first() =~= Seq::<char>::empty());
        assert(unquoted_start(u) == unquoted_start(u.drop_first()));
        assert(unquoted_start(u) =~= s);
        assert(unquoted_end(unquoted_start(t)) =~= s);
    } else {
        assert(u.first() == s.first());
        assert(unquoted_start(u) == u);
        assert(u.last() == q);
        assert(u.drop_last() =~= s);
        assert(unquoted_end(u) == unquoted_end(s));
        assert(unquoted_end(s) == s);
    }
}

/// The name that a header gives stands behind `filename=`, in quotes or without.
pub proof fn law_quotes_are_taken_off(name: Seq<char>)
    requires
        name.len() > 0,
        !is_quote(name.first()),
        !is_quote(name.last()),
        trim(name) == name,
    ensures
        filename_param("filename="@ + name) == Some(name),
        filename_param("filename="@ + (seq!['"'] + name + seq!['"'])) == Some(name),
{
    let quoted = seq!['"'] + name + seq!['"'];
    assert(!crate::text::is_white(name.last())) by {
        crate::text_laws::law_trimming_cuts_white_space_only(name);
    }
    assert(quoted.len() > 0 && quoted.last() == '"');
    assert(unquoted(name) == name && unquoted(quoted) == name) by {
        lemma_unquoted(name);
    }
    lemma_param("filename="@, name);
    lemma_param("filename="@, quoted);
}

proof fn lemma_param(key: Seq<char>, value: Seq<char>)
    requires
        key == "filename="@,
        value.len() > 0,
        !crate::text::is_white(value.last()),
    ensures
        filename_param(key + value) == Some(unquoted(value)),
{
    reveal_strlit("filename=");
    let t = key + value;
    assert(t.first() == 'f');
    assert(t.last() == value.last());
    assert(crate::text::trim_start(t) == t);
    assert(crate::text::trim_end(t) == t);
    assert(trim(t) == t);
    assert(t.subrange(0, key.len() as int) =~= key);
    assert(t.skip(key.len() as int) =~= value);
}

/// Of several parameters the first that gives a name counts.
pub proof fn law_the_first_name_counts(value: Seq<char>)
    ensures
        ({
            let parts = split(value, ';');
            match disposition_name(value) {
                Some(name) => exists|k: int| #[trigger] names_first(parts, k, name),
                None => forall|i: int|
                    0 <= i < parts.len() ==> filename_param(#[trigger] parts[i]) is None,
            }
        }),
{
    lemma_first_filename(split(value, ';'));
}

/// The part gives the name, and none before it gives one.
pub open spec fn names_first(parts: Seq<Seq<char>>, k: int, name: Seq<char>) -> bool {
    &&& 0 <= k < parts.len()
    &&& filename_param(parts[k]) == Some(name)
    &&& forall|i: int| 0 <= i < k ==> filename_param(#[trigger] parts[i]) is None
}

proof fn lemma_first_filename(parts: Seq<Seq<char>>)
    ensures
        match first_filename(parts) {
            Some(name) => exists|k: int| #[trigger] names_first(parts, k, name),
            None => forall|i: int|
                0 <= i < parts.len() ==> filename_param(#[trigger] parts[i]) is None,
        },
    decreases parts.len(),
{
    if parts.len() > 0 {
        let rest = parts.drop_first();
        match filename_param(parts.first()) {
            Some(name) => {
                assert(names_first(parts, 0, name));
            },
            None => {
                lemma_first_filename(rest);
                match first_filename(rest) {
                    Some(name) => {
                        let k = choose|k: int| #[trigger] names_first(rest, k, name);
                        assert forall|i: int| 0 <= i < k + 1 implies filename_param(
                            #[trigger] parts[i],
                        ) is None by {
                            if i > 0 {
                                assert(rest[i - 1] == parts[i]);
                            }
                        }
                        assert(parts[k + 1] == rest[k]);
                        assert(names_first(parts, k + 1, name));
                    },
                    None => {
                        assert forall|i: int| 0 <= i < parts.len() implies filename_param(
                            #[trigger] parts[i],
                        ) is None by {
                            if i > 0 {
                                assert(rest[i - 1] == parts[i]);
                            }
                        }
                    },
                }
            },
        }
    }
}

/// A download is named by its header, or else by its address, or else by a name of its own.
pub proof fn law_downloads_have_a_name(
    disposition: Option<Seq<char>>,
    last_segment: Option<Seq<char>>,
)
    ensures
        download_name(disposition, last_segment).len() > 0,
        disposition matches Some(value) ==> disposition_name(value) matches Some(name) ==> name.len()
            > 0 ==> download_name(disposition, last_segment) == name,
        (disposition is None || disposition_name(disposition->0) is None) && last_segment is Some
            && last_segment->0.len() > 0 ==> download_name(disposition, last_segment)
            == last_segment->0,
{
    reveal_strlit("download.bin");
}

// ---------------------------------------------------------------------------
// Names
// ---------------------------------------------------------------------------
/// A file's ending stands behind the last dot of its name, in small letters; a dot at the
/// very beginning makes none. The stem is what stands before it.
pub proof fn law_endings_stand_behind_the_last_dot(
    path: Seq<char>,
    stem: Seq<char>,
    ending: Seq<char>,
)
    requires
        path_file_name(path) == Some(stem + seq!['.'] + ending),
        !ending.contains('.'),
    ensures
        stem.len() > 0 ==> path_extension(path) == lower(ending) && path_stem(path) == stem,
        stem.len() == 0 ==> path_extension(path).len() == 0 && path_stem(path) == seq!['.']
            + ending,
{
    let name = stem + seq!['.'] + ending;
    let n = stem.len() as int;
    law_last_index_is_the_last(name, '.');
    assert(name[n] == '.');
    match crate::text::last_index(name, '.') {
        Some(i) => {
            if i < n {
                assert(name[n] != '.');
            }
            if i > n {
                assert(name[i as int] == ending[i - n - 1]);
                assert(ending.contains('.'));
            }
            assert(i == n);
            assert(name.skip(n + 1) =~= ending);
            assert(name.take(n) =~= stem);
        },
        None => {
            assert(name.contains('.'));
        },
    }
    if n == 0 {
        assert(name =~= seq!['.'] + ending);
    }
}

/// A name without a dot has no ending, and is its own stem.
pub proof fn law_names_without_a_dot(path: Seq<char>, name: Seq<char>)
    requires
        path_file_name(path) == Some(name),
        !name.contains('.'),
    ensures
        path_extension(path).len() == 0,
        path_stem(path) == name,
{
    law_last_index_is_the_last(name, '.');
}

} // verus!
