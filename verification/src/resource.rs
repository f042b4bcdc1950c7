//! The `wispet://mdd/<category>/<name>` resources that dictionary pages
//! refer to: which resource a request names, and its media type.

use vstd::prelude::*;
use vstd::utf8::{decode_utf8, encode_utf8, valid_utf8};
use crate::text::{
    char_seqs,
    chars_of,
    find_chars,
    first_occurrence,
    occurs_at,
    lowercase,
    split_chars,
    split_on,
    str_to_lowercase,
    string_from_chars,
};
use crate::url::{percent_decode, url_decode};

verus! {

/// The media type of a file extension (already lower-cased).
pub open spec fn mime_for(ext: Seq<char>) -> Seq<char> {
    if ext == "mp3"@ {
        "audio/mpeg"@
    } else if ext == "wav"@ {
        "audio/wav"@
    } else if ext == "ogg"@ {
        "audio/ogg"@
    } else if ext == "m4a"@ {
        "audio/mp4"@
    } else if ext == "png"@ {
        "image/png"@
    } else if ext == "jpg"@ || ext == "jpeg"@ {
        "image/jpeg"@
    } else if ext == "gif"@ {
        "image/gif"@
    } else if ext == "webp"@ {
        "image/webp"@
    } else if ext == "svg"@ {
        "image/svg+xml"@
    } else if ext == "css"@ {
        "text/css"@
    } else if ext == "js"@ {
        "application/javascript"@
    } else {
        "application/octet-stream"@
    }
}

/// The media types and extensions of the table differ from one another.
proof fn lemma_mime_literals_distinct()
    ensures
        "audio/mpeg"@ != "audio/wav"@,
        "audio/mpeg"@ != "audio/ogg"@,
        "audio/mpeg"@ != "audio/mp4"@,
        "audio/mpeg"@ != "image/png"@,
        "audio/mpeg"@ != "image/jpeg"@,
        "audio/mpeg"@ != "image/gif"@,
        "audio/mpeg"@ != "image/webp"@,
        "audio/mpeg"@ != "image/svg+xml"@,
        "audio/mpeg"@ != "text/css"@,
        "audio/mpeg"@ != "application/javascript"@,
        "audio/mpeg"@ != "application/octet-stream"@,
        "audio/wav"@ != "audio/ogg"@,
        "audio/wav"@ != "audio/mp4"@,
        "audio/wav"@ != "image/png"@,
        "audio/wav"@ != "image/jpeg"@,
        "audio/wav"@ != "image/gif"@,
        "audio/wav"@ != "image/webp"@,
        "audio/wav"@ != "image/svg+xml"@,
        "audio/wav"@ != "text/css"@,
        "audio/wav"@ != "application/javascript"@,
        "audio/wav"@ != "application/octet-stream"@,
        "audio/ogg"@ != "audio/mp4"@,
        "audio/ogg"@ != "image/png"@,
        "audio/ogg"@ != "image/jpeg"@,
        "audio/ogg"@ != "image/gif"@,
        "audio/ogg"@ != "image/webp"@,
        "audio/ogg"@ != "image/svg+xml"@,
        "audio/ogg"@ != "text/css"@,
        "audio/ogg"@ != "application/javascript"@,
        "audio/ogg"@ != "application/octet-stream"@,
        "audio/mp4"@ != "image/png"@,
        "audio/mp4"@ != "image/jpeg"@,
        "audio/mp4"@ != "image/gif"@,
        "audio/mp4"@ != "image/webp"@,
        "audio/mp4"@ != "image/svg+xml"@,
        "audio/mp4"@ != "text/css"@,
        "audio/mp4"@ != "application/javascript"@,
        "audio/mp4"@ != "application/octet-stream"@,
        "image/png"@ != "image/jpeg"@,
        "image/png"@ != "image/gif"@,
        "image/png"@ != "image/webp"@,
        "image/png"@ != "image/svg+xml"@,
        "image/png"@ != "text/css"@,
        "image/png"@ != "application/javascript"@,
        "image/png"@ != "application/octet-stream"@,
        "image/jpeg"@ != "image/gif"@,
        "image/jpeg"@ != "image/webp"@,
        "image/jpeg"@ != "image/svg+xml"@,
        "image/jpeg"@ != "text/css"@,
        "image/jpeg"@ != "application/javascript"@,
        "image/jpeg"@ != "application/octet-stream"@,
        "image/gif"@ != "image/webp"@,
        "image/gif"@ != "image/svg+xml"@,
        "image/gif"@ != "text/css"@,
        "image/gif"@ != "application/javascript"@,
        "image/gif"@ != "application/octet-stream"@,
        "image/webp"@ != "image/svg+xml"@,
        "image/webp"@ != "text/css"@,
        "image/webp"@ != "application/javascript"@,
        "image/webp"@ != "application/octet-stream"@,
        "image/svg+xml"@ != "text/css"@,
        "image/svg+xml"@ != "application/javascript"@,
        "image/svg+xml"@ != "application/octet-stream"@,
        "text/css"@ != "application/javascript"@,
        "text/css"@ != "application/octet-stream"@,
        "application/javascript"@ != "application/octet-stream"@,
        "mp3"@ != "wav"@,
        "mp3"@ != "ogg"@,
        "mp3"@ != "m4a"@,
        "mp3"@ != "png"@,
        "mp3"@ != "jpg"@,
        "mp3"@ != "jpeg"@,
        "mp3"@ != "gif"@,
        "mp3"@ != "webp"@,
        "mp3"@ != "svg"@,
        "mp3"@ != "css"@,
        "mp3"@ != "js"@,
        "wav"@ != "ogg"@,
        "wav"@ != "m4a"@,
        "wav"@ != "png"@,
        "wav"@ != "jpg"@,
        "wav"@ != "jpeg"@,
        "wav"@ != "gif"@,
        "wav"@ != "webp"@,
        "wav"@ != "svg"@,
        "wav"@ != "css"@,
        "wav"@ != "js"@,
        "ogg"@ != "m4a"@,
        "ogg"@ != "png"@,
        "ogg"@ != "jpg"@,
        "ogg"@ != "jpeg"@,
        "ogg"@ != "gif"@,
        "ogg"@ != "webp"@,
        "ogg"@ != "svg"@,
        "ogg"@ != "css"@,
        "ogg"@ != "js"@,
        "m4a"@ != "png"@,
        "m4a"@ != "jpg"@,
        "m4a"@ != "jpeg"@,
        "m4a"@ != "gif"@,
        "m4a"@ != "webp"@,
        "m4a"@ != "svg"@,
        "m4a"@ != "css"@,
        "m4a"@ != "js"@,
        "png"@ != "jpg"@,
        "png"@ != "jpeg"@,
        "png"@ != "gif"@,
        "png"@ != "webp"@,
        "png"@ != "svg"@,
        "png"@ != "css"@,
        "png"@ != "js"@,
        "jpg"@ != "jpeg"@,
        "jpg"@ != "gif"@,
        "jpg"@ != "webp"@,
        "jpg"@ != "svg"@,
        "jpg"@ != "css"@,
        "jpg"@ != "js"@,
        "jpeg"@ != "gif"@,
        "jpeg"@ != "webp"@,
        "jpeg"@ != "svg"@,
        "jpeg"@ != "css"@,
        "jpeg"@ != "js"@,
        "gif"@ != "webp"@,
        "gif"@ != "svg"@,
        "gif"@ != "css"@,
        "gif"@ != "js"@,
        "webp"@ != "svg"@,
        "webp"@ != "css"@,
        "webp"@ != "js"@,
        "svg"@ != "css"@,
        "svg"@ != "js"@,
        "css"@ != "js"@,
{
    reveal_strlit("audio/mpeg");
    reveal_strlit("audio/wav");
    reveal_strlit("audio/ogg");
    reveal_strlit("audio/mp4");
    reveal_strlit("image/png");
    reveal_strlit("image/jpeg");
    reveal_strlit("image/gif");
    reveal_strlit("image/webp");
    reveal_strlit("image/svg+xml");
    reveal_strlit("text/css");
    reveal_strlit("application/javascript");
    reveal_strlit("application/octet-stream");
    reveal_strlit("mp3");
    reveal_strlit("wav");
    reveal_strlit("ogg");
    reveal_strlit("m4a");
    reveal_strlit("png");
    reveal_strlit("jpg");
    reveal_strlit("jpeg");
    reveal_strlit("gif");
    reveal_strlit("webp");
    reveal_strlit("svg");
    reveal_strlit("css");
    reveal_strlit("js");
    assert("audio/mpeg"@.len() == 10 && "audio/wav"@.len() == 9);
    assert("audio/mpeg"@ != "audio/wav"@);
    assert("audio/mpeg"@.len() == 10 && "audio/ogg"@.len() == 9);
    assert("audio/mpeg"@ != "audio/ogg"@);
    assert("audio/mpeg"@.len() == 10 && "audio/mp4"@.len() == 9);
    assert("audio/mpeg"@ != "audio/mp4"@);
    assert("audio/mpeg"@.len() == 10 && "image/png"@.len() == 9);
    assert("audio/mpeg"@ != "image/png"@);
    assert("audio/mpeg"@[0] != "image/jpeg"@[0]);
    assert("audio/mpeg"@ != "image/jpeg"@);
    assert("audio/mpeg"@.len() == 10 && "image/gif"@.len() == 9);
    assert("audio/mpeg"@ != "image/gif"@);
    assert("audio/mpeg"@[0] != "image/webp"@[0]);
    assert("audio/mpeg"@ != "image/webp"@);
    assert("audio/mpeg"@.len() == 10 && "image/svg+xml"@.len() == 13);
    assert("audio/mpeg"@ != "image/svg+xml"@);
    assert("audio/mpeg"@.len() == 10 && "text/css"@.len() == 8);
    assert("audio/mpeg"@ != "text/css"@);
    assert("audio/mpeg"@.len() == 10 && "application/javascript"@.len() == 22);
    assert("audio/mpeg"@ != "application/javascript"@);
    assert("audio/mpeg"@.len() == 10 && "application/octet-stream"@.len() == 24);
    assert("audio/mpeg"@ != "application/octet-stream"@);
    assert("audio/wav"@[6] != "audio/ogg"@[6]);
    assert("audio/wav"@ != "audio/ogg"@);
    assert("audio/wav"@[6] != "audio/mp4"@[6]);
    assert("audio/wav"@ != "audio/mp4"@);
    assert("audio/wav"@[0] != "image/png"@[0]);
    assert("audio/wav"@ != "image/png"@);
    assert("audio/wav"@.len() == 9 && "image/jpeg"@.len() == 10);
    assert("audio/wav"@ != "image/jpeg"@);
    assert("audio/wav"@[0] != "image/gif"@[0]);
    assert("audio/wav"@ != "image/gif"@);
    assert("audio/wav"@.len() == 9 && "image/webp"@.len() == 10);
    assert("audio/wav"@ != "image/webp"@);
    assert("audio/wav"@.len() == 9 && "image/svg+xml"@.len() == 13);
    assert("audio/wav"@ != "image/svg+xml"@);
    assert("audio/wav"@.len() == 9 && "text/css"@.len() == 8);
    assert("audio/wav"@ != "text/css"@);
    assert("audio/wav"@.len() == 9 && "application/javascript"@.len() == 22);
    assert("audio/wav"@ != "application/javascript"@);
    assert("audio/wav"@.len() == 9 && "application/octet-stream"@.len() == 24);
    assert("audio/wav"@ != "application/octet-stream"@);
    assert("audio/ogg"@[6] != "audio/mp4"@[6]);
    assert("audio/ogg"@ != "audio/mp4"@);
    assert("audio/ogg"@[0] != "image/png"@[0]);
    assert("audio/ogg"@ != "image/png"@);
    assert("audio/ogg"@.len() == 9 && "image/jpeg"@.len() == 10);
    assert("audio/ogg"@ != "image/jpeg"@);
    assert("audio/ogg"@[0] != "image/gif"@[0]);
    assert("audio/ogg"@ != "image/gif"@);
    assert("audio/ogg"@.len() == 9 && "image/webp"@.len() == 10);
    assert("audio/ogg"@ != "image/webp"@);
    assert("audio/ogg"@.len() == 9 && "image/svg+xml"@.len() == 13);
    assert("audio/ogg"@ != "image/svg+xml"@);
    assert("audio/ogg"@.len() == 9 && "text/css"@.len() == 8);
    assert("audio/ogg"@ != "text/css"@);
    assert("audio/ogg"@.len() == 9 && "application/javascript"@.len() == 22);
    assert("audio/ogg"@ != "application/javascript"@);
    assert("audio/ogg"@.len() == 9 && "application/octet-stream"@.len() == 24);
    assert("audio/ogg"@ != "application/octet-stream"@);
    assert("audio/mp4"@[0] != "image/png"@[0]);
    assert("audio/mp4"@ != "image/png"@);
    assert("audio/mp4"@.len() == 9 && "image/jpeg"@.len() == 10);
    assert("audio/mp4"@ != "image/jpeg"@);
    assert("audio/mp4"@[0] != "image/gif"@[0]);
    assert("audio/mp4"@ != "image/gif"@);
    assert("audio/mp4"@.len() == 9 && "image/webp"@.len() == 10);
    assert("audio/mp4"@ != "image/webp"@);
    assert("audio/mp4"@.len() == 9 && "image/svg+xml"@.len() == 13);
    assert("audio/mp4"@ != "image/svg+xml"@);
    assert("audio/mp4"@.len() == 9 && "text/css"@.len() == 8);
    assert("audio/mp4"@ != "text/css"@);
    assert("audio/mp4"@.len() == 9 && "application/javascript"@.len() == 22);
    assert("audio/mp4"@ != "application/javascript"@);
    assert("audio/mp4"@.len() == 9 && "application/octet-stream"@.len() == 24);
    assert("audio/mp4"@ != "application/octet-stream"@);
    assert("image/png"@.len() == 9 && "image/jpeg"@.len() == 10);
    assert("image/png"@ != "image/jpeg"@);
    assert("image/png"@[6] != "image/gif"@[6]);
    assert("image/png"@ != "image/gif"@);
    assert("image/png"@.len() == 9 && "image/webp"@.len() == 10);
    assert("image/png"@ != "image/webp"@);
    assert("image/png"@.len() == 9 && "image/svg+xml"@.len() == 13);
    assert("image/png"@ != "image/svg+xml"@);
    assert("image/png"@.len() == 9 && "text/css"@.len() == 8);
    assert("image/png"@ != "text/css"@);
    assert("image/png"@.len() == 9 && "application/javascript"@.len() == 22);
    assert("image/png"@ != "application/javascript"@);
    assert("image/png"@.len() == 9 && "application/octet-stream"@.len() == 24);
    assert("image/png"@ != "application/octet-stream"@);
    assert("image/jpeg"@.len() == 10 && "image/gif"@.len() == 9);
    assert("image/jpeg"@ != "image/gif"@);
    assert("image/jpeg"@[6] != "image/webp"@[6]);
    assert("image/jpeg"@ != "image/webp"@);
    assert("image/jpeg"@.len() == 10 && "image/svg+xml"@.len() == 13);
    assert("image/jpeg"@ != "image/svg+xml"@);
    assert("image/jpeg"@.len() == 10 && "text/css"@.len() == 8);
    assert("image/jpeg"@ != "text/css"@);
    assert("image/jpeg"@.len() == 10 && "application/javascript"@.len() == 22);
    assert("image/jpeg"@ != "application/javascript"@);
    assert("image/jpeg"@.len() == 10 && "application/octet-stream"@.len() == 24);
    assert("image/jpeg"@ != "application/octet-stream"@);
    assert("image/gif"@.len() == 9 && "image/webp"@.len() == 10);
    assert("image/gif"@ != "image/webp"@);
    assert("image/gif"@.len() == 9 && "image/svg+xml"@.len() == 13);
    assert("image/gif"@ != "image/svg+xml"@);
    assert("image/gif"@.len() == 9 && "text/css"@.len() == 8);
    assert("image/gif"@ != "text/css"@);
    assert("image/gif"@.len() == 9 && "application/javascript"@.len() == 22);
    assert("image/gif"@ != "application/javascript"@);
    assert("image/gif"@.len() == 9 && "application/octet-stream"@.len() == 24);
    assert("image/gif"@ != "application/octet-stream"@);
    assert("image/webp"@.len() == 10 && "image/svg+xml"@.len() == 13);
    assert("image/webp"@ != "image/svg+xml"@);
    assert("image/webp"@.len() == 10 && "text/css"@.len() == 8);
    assert("image/webp"@ != "text/css"@);
    assert("image/webp"@.len() == 10 && "application/javascript"@.len() == 22);
    assert("image/webp"@ != "application/javascript"@);
    assert("image/webp"@.len() == 10 && "application/octet-stream"@.len() == 24);
    assert("image/webp"@ != "application/octet-stream"@);
    assert("image/svg+xml"@.len() == 13 && "text/css"@.len() == 8);
    assert("image/svg+xml"@ != "text/css"@);
    assert("image/svg+xml"@.len() == 13 && "application/javascript"@.len() == 22);
    assert("image/svg+xml"@ != "application/javascript"@);
    assert("image/svg+xml"@.len() == 13 && "application/octet-stream"@.len() == 24);
    assert("image/svg+xml"@ != "application/octet-stream"@);
    assert("text/css"@.len() == 8 && "application/javascript"@.len() == 22);
    assert("text/css"@ != "application/javascript"@);
    assert("text/css"@.len() == 8 && "application/octet-stream"@.len() == 24);
    assert("text/css"@ != "application/octet-stream"@);
    assert("application/javascript"@.len() == 22 && "application/octet-stream"@.len() == 24);
    assert("application/javascript"@ != "application/octet-stream"@);
    assert("mp3"@[0] != "wav"@[0]);
    assert("mp3"@ != "wav"@);
    assert("mp3"@[0] != "ogg"@[0]);
    assert("mp3"@ != "ogg"@);
    assert("mp3"@[1] != "m4a"@[1]);
    assert("mp3"@ != "m4a"@);
    assert("mp3"@[0] != "png"@[0]);
    assert("mp3"@ != "png"@);
    assert("mp3"@[0] != "jpg"@[0]);
    assert("mp3"@ != "jpg"@);
    assert("mp3"@.len() == 3 && "jpeg"@.len() == 4);
    assert("mp3"@ != "jpeg"@);
    assert("mp3"@[0] != "gif"@[0]);
    assert("mp3"@ != "gif"@);
    assert("mp3"@.len() == 3 && "webp"@.len() == 4);
    assert("mp3"@ != "webp"@);
    assert("mp3"@[0] != "svg"@[0]);
    assert("mp3"@ != "svg"@);
    assert("mp3"@[0] != "css"@[0]);
    assert("mp3"@ != "css"@);
    assert("mp3"@.len() == 3 && "js"@.len() == 2);
    assert("mp3"@ != "js"@);
    assert("wav"@[0] != "ogg"@[0]);
    assert("wav"@ != "ogg"@);
    assert("wav"@[0] != "m4a"@[0]);
    assert("wav"@ != "m4a"@);
    assert("wav"@[0] != "png"@[0]);
    assert("wav"@ != "png"@);
    assert("wav"@[0] != "jpg"@[0]);
    assert("wav"@ != "jpg"@);
    assert("wav"@.len() == 3 && "jpeg"@.len() == 4);
    assert("wav"@ != "jpeg"@);
    assert("wav"@[0] != "gif"@[0]);
    assert("wav"@ != "gif"@);
    assert("wav"@.len() == 3 && "webp"@.len() == 4);
    assert("wav"@ != "webp"@);
    assert("wav"@[0] != "svg"@[0]);
    assert("wav"@ != "svg"@);
    assert("wav"@[0] != "css"@[0]);
    assert("wav"@ != "css"@);
    assert("wav"@.len() == 3 && "js"@.len() == 2);
    assert("wav"@ != "js"@);
    assert("ogg"@[0] != "m4a"@[0]);
    assert("ogg"@ != "m4a"@);
    assert("ogg"@[0] != "png"@[0]);
    assert("ogg"@ != "png"@);
    assert("ogg"@[0] != "jpg"@[0]);
    assert("ogg"@ != "jpg"@);
    assert("ogg"@.len() == 3 && "jpeg"@.len() == 4);
    assert("ogg"@ != "jpeg"@);
    assert("ogg"@[0] != "gif"@[0]);
    assert("ogg"@ != "gif"@);
    assert("ogg"@.len() == 3 && "webp"@.len() == 4);
    assert("ogg"@ != "webp"@);
    assert("ogg"@[0] != "svg"@[0]);
    assert("ogg"@ != "svg"@);
    assert("ogg"@[0] != "css"@[0]);
    assert("ogg"@ != "css"@);
    assert("ogg"@.len() == 3 && "js"@.len() == 2);
    assert("ogg"@ != "js"@);
    assert("m4a"@[0] != "png"@[0]);
    assert("m4a"@ != "png"@);
    assert("m4a"@[0] != "jpg"@[0]);
    assert("m4a"@ != "jpg"@);
    assert("m4a"@.len() == 3 && "jpeg"@.len() == 4);
    assert("m4a"@ != "jpeg"@);
    assert("m4a"@[0] != "gif"@[0]);
    assert("m4a"@ != "gif"@);
    assert("m4a"@.len() == 3 && "webp"@.len() == 4);
    assert("m4a"@ != "webp"@);
    assert("m4a"@[0] != "svg"@[0]);
    assert("m4a"@ != "svg"@);
    assert("m4a"@[0] != "css"@[0]);
    assert("m4a"@ != "css"@);
    assert("m4a"@.len() == 3 && "js"@.len() == 2);
    assert("m4a"@ != "js"@);
    assert("png"@[0] != "jpg"@[0]);
    assert("png"@ != "jpg"@);
    assert("png"@.len() == 3 && "jpeg"@.len() == 4);
    assert("png"@ != "jpeg"@);
    assert("png"@[0] != "gif"@[0]);
    assert("png"@ != "gif"@);
    assert("png"@.len() == 3 && "webp"@.len() == 4);
    assert("png"@ != "webp"@);
    assert("png"@[0] != "svg"@[0]);
    assert("png"@ != "svg"@);
    assert("png"@[0] != "css"@[0]);
    assert("png"@ != "css"@);
    assert("png"@.len() == 3 && "js"@.len() == 2);
    assert("png"@ != "js"@);
    assert("jpg"@.len() == 3 && "jpeg"@.len() == 4);
    assert("jpg"@ != "jpeg"@);
    assert("jpg"@[0] != "gif"@[0]);
    assert("jpg"@ != "gif"@);
    assert("jpg"@.len() == 3 && "webp"@.len() == 4);
    assert("jpg"@ != "webp"@);
    assert("jpg"@[0] != "svg"@[0]);
    assert("jpg"@ != "svg"@);
    assert("jpg"@[0] != "css"@[0]);
    assert("jpg"@ != "css"@);
    assert("jpg"@.len() == 3 && "js"@.len() == 2);
    assert("jpg"@ != "js"@);
    assert("jpeg"@.len() == 4 && "gif"@.len() == 3);
    assert("jpeg"@ != "gif"@);
    assert("jpeg"@[0] != "webp"@[0]);
    assert("jpeg"@ != "webp"@);
    assert("jpeg"@.len() == 4 && "svg"@.len() == 3);
    assert("jpeg"@ != "svg"@);
    assert("jpeg"@.len() == 4 && "css"@.len() == 3);
    assert("jpeg"@ != "css"@);
    assert("jpeg"@.len() == 4 && "js"@.len() == 2);
    assert("jpeg"@ != "js"@);
    assert("gif"@.len() == 3 && "webp"@.len() == 4);
    assert("gif"@ != "webp"@);
    assert("gif"@[0] != "svg"@[0]);
    assert("gif"@ != "svg"@);
    assert("gif"@[0] != "css"@[0]);
    assert("gif"@ != "css"@);
    assert("gif"@.len() == 3 && "js"@.len() == 2);
    assert("gif"@ != "js"@);
    assert("webp"@.len() == 4 && "svg"@.len() == 3);
    assert("webp"@ != "svg"@);
    assert("webp"@.len() == 4 && "css"@.len() == 3);
    assert("webp"@ != "css"@);
    assert("webp"@.len() == 4 && "js"@.len() == 2);
    assert("webp"@ != "js"@);
    assert("svg"@[0] != "css"@[0]);
    assert("svg"@ != "css"@);
    assert("svg"@.len() == 3 && "js"@.len() == 2);
    assert("svg"@ != "js"@);
    assert("css"@.len() == 3 && "js"@.len() == 2);
    assert("css"@ != "js"@);
}

/// Distinct extensions get distinct media types: two extensions share a
/// known media type only when they are `jpg` and `jpeg`.
pub proof fn lemma_mime_types_distinct(a: Seq<char>, b: Seq<char>)
    requires
        a != b,
        mime_for(a) == mime_for(b),
        mime_for(a) != "application/octet-stream"@,
    ensures
        (a == "jpg"@ && b == "jpeg"@) || (a == "jpeg"@ && b == "jpg"@),
{
    lemma_mime_literals_distinct();
}

/// Where a media type's subtype is the extension itself (`wav`, `ogg`,
/// `png`, `jpeg`, `gif`, `webp`, `css`), the media type is a top-level type,
/// `/` and that extension.
pub proof fn lemma_mime_names_extension(ext: Seq<char>)
    requires
        ext == "wav"@ || ext == "ogg"@ || ext == "png"@ || ext == "jpeg"@ || ext == "gif"@ || ext
            == "webp"@ || ext == "css"@,
    ensures
        exists|top: Seq<char>| mime_for(ext) == top + seq!['/'] + ext,
{
    lemma_mime_literals_distinct();
    if ext == "wav"@ {
        reveal_strlit("wav");
        reveal_strlit("audio");
        reveal_strlit("audio/wav");
        assert(mime_for(ext) =~= "audio"@ + seq!['/'] + ext);
    }
    if ext == "ogg"@ {
        reveal_strlit("ogg");
        reveal_strlit("audio");
        reveal_strlit("audio/ogg");
        assert(mime_for(ext) =~= "audio"@ + seq!['/'] + ext);
    }
    if ext == "png"@ {
        reveal_strlit("png");
        reveal_strlit("image");
        reveal_strlit("image/png");
        assert(mime_for(ext) =~= "image"@ + seq!['/'] + ext);
    }
    if ext == "jpeg"@ {
        reveal_strlit("jpeg");
        reveal_strlit("image");
        reveal_strlit("image/jpeg");
        assert(mime_for(ext) =~= "image"@ + seq!['/'] + ext);
    }
    if ext == "gif"@ {
        reveal_strlit("gif");
        reveal_strlit("image");
        reveal_strlit("image/gif");
        assert(mime_for(ext) =~= "image"@ + seq!['/'] + ext);
    }
    if ext == "webp"@ {
        reveal_strlit("webp");
        reveal_strlit("image");
        reveal_strlit("image/webp");
        assert(mime_for(ext) =~= "image"@ + seq!['/'] + ext);
    }
    if ext == "css"@ {
        reveal_strlit("css");
        reveal_strlit("text");
        reveal_strlit("text/css");
        assert(mime_for(ext) =~= "text"@ + seq!['/'] + ext);
    }
}

/// Whether the text is the given literal.
fn is_text(s: &str, lit: &str) -> (r: bool)
    ensures
        r == (s@ == lit@),
{
    let a = chars_of(s);
    let b = chars_of(lit);
    crate::text::chars_eq(a.as_slice(), b.as_slice())
}

/// The media type of a lower-cased file extension; anything unknown is
/// `application/octet-stream`.
pub fn mime_for_extension(ext: &str) -> (r: &'static str)
    ensures
        r@ == mime_for(ext@),
{
    if is_text(ext, "mp3") {
        "audio/mpeg"
    } else if is_text(ext, "wav") {
        "audio/wav"
    } else if is_text(ext, "ogg") {
        "audio/ogg"
    } else if is_text(ext, "m4a") {
        "audio/mp4"
    } else if is_text(ext, "png") {
        "image/png"
    } else if is_text(ext, "jpg") || is_text(ext, "jpeg") {
        "image/jpeg"
    } else if is_text(ext, "gif") {
        "image/gif"
    } else if is_text(ext, "webp") {
        "image/webp"
    } else if is_text(ext, "svg") {
        "image/svg+xml"
    } else if is_text(ext, "css") {
        "text/css"
    } else if is_text(ext, "js") {
        "application/javascript"
    } else {
        "application/octet-stream"
    }
}

/// The extension of a file name: what follows its last `.`, or the whole
/// name when it has none.
pub open spec fn extension(name: Seq<char>) -> Seq<char> {
    split_on(name, '.').last()
}

/// The media type of a resource, by the lower-cased extension of its name.
pub fn guess_mime(name: &str) -> (r: &'static str)
    ensures
        r@ == mime_for(lowercase(extension(name@))),
{
    let chars = chars_of(name);
    let parts = split_chars(chars.as_slice(), '.');
    proof {
        crate::text::lemma_split_nonempty(name@, '.');
    }
    let last = &parts[parts.len() - 1];
    assert(char_seqs(parts@)[parts@.len() - 1] == last@);
    let ext = string_from_chars(last.as_slice());
    let low = str_to_lowercase(ext.as_str());
    mime_for_extension(low.as_str())
}

/// What follows the first `sep` in `s`; `None` when `sep` does not occur.
pub open spec fn after_first(s: Seq<char>, sep: Seq<char>) -> Option<Seq<char>> {
    match first_occurrence(s, sep, 0) {
        None => None,
        Some(i) => Some(s.skip(i + sep.len())),
    }
}

/// What follows the first `sep` in `s`.
fn after_first_chars(s: &[char], sep: &[char]) -> (r: Option<Vec<char>>)
    requires
        sep@.len() > 0,
    ensures
        match r {
            Some(v) => after_first(s@, sep@) == Some(v@),
            None => after_first(s@, sep@) is None,
        },
{
    match find_chars(s, sep, 0) {
        None => None,
        Some(i) => {
            assert(occurs_at(s@, i as int, sep@));
            let n = sep.len();
            let total = s.len();
            assert(i + n <= total);
            let rest = vstd::slice::slice_subrange(s, i + n, total);
            assert(rest@ =~= s@.skip(i + n));
            Some(vstd::slice::slice_to_vec(rest))
        },
    }
}

/// The raw (still percent-encoded) resource name of a request URI
/// `wispet://mdd/<category>/<name>`: what follows the first `/` after the
/// first `mdd/` (the name, which may itself hold `/`), or all that follows
/// `mdd/` when no `/` does.
pub open spec fn raw_resource_name(uri: Seq<char>) -> Option<Seq<char>> {
    match after_first(uri, "mdd/"@) {
        None => None,
        Some(after) => match after_first(after, seq!['/']) {
            Some(name) => Some(name),
            None => Some(after),
        },
    }
}

/// The text of a percent-encoded name: decoded when the decoded bytes are
/// UTF-8, else the name as it stands.
pub open spec fn decoded_name(raw: Seq<char>) -> Seq<char> {
    let bytes = percent_decode(encode_utf8(raw));
    if valid_utf8(bytes) {
        decode_utf8(bytes)
    } else {
        raw
    }
}

/// The resource that a `wispet://mdd/<category>/<name>` request names:
/// `None` when the URI holds no `mdd/` or the name is empty; otherwise the
/// name, percent-decoded when that gives UTF-8 text.
pub fn extract_wispet_resource_name(uri: &str) -> (r: Option<String>)
    ensures
        match raw_resource_name(uri@) {
            None => r is None,
            Some(raw) => if raw.len() == 0 {
                r is None
            } else {
                r matches Some(name) && name@ == decoded_name(raw)
            },
        },
{
    let chars = chars_of(uri);
    let mdd = chars_of("mdd/");
    proof {
        reveal_strlit("mdd/");
    }
    let after = match after_first_chars(chars.as_slice(), mdd.as_slice()) {
        None => {
            return None;
        },
        Some(a) => a,
    };
    let slash = vec!['/'];
    assert(slash@ =~= seq!['/']);
    let raw = match after_first_chars(after.as_slice(), slash.as_slice()) {
        Some(name) => name,
        None => after,
    };
    if raw.len() == 0 {
        return None;
    }
    let text = string_from_chars(raw.as_slice());
    match url_decode(text.as_str()) {
        Some(decoded) => Some(decoded),
        None => Some(text),
    }
}

} // verus!
