//! Following the clipboard: which copied texts are worth announcing.

use vstd::prelude::*;
use crate::text::trim_ws;

verus! {

/// The trimmed clipboard text to announce, if any: it is announced when it
/// is not blank and differs from the last text announced.
pub open spec fn clipboard_news(last: Seq<char>, text: Seq<char>) -> Option<Seq<char>> {
    let t = trim_ws(text);
    if t.len() != 0 && t != last {
        Some(t)
    } else {
        None
    }
}

/// What to do with the text just read from the clipboard, given the last
/// text announced: `Some` with the trimmed text to announce (and to
/// remember as the last one), or `None` to stay quiet.
pub fn clipboard_update(last: &str, text: &str) -> (r: Option<String>)
    ensures
        match r {
            Some(t) => clipboard_news(last@, text@) == Some(t@),
            None => clipboard_news(last@, text@) is None,
        },
{
    let chars = crate::text::chars_of(text);
    let trimmed = crate::text::trim_chars(chars.as_slice());
    if trimmed.len() == 0 {
        return None;
    }
    let b = crate::text::chars_of(last);
    if crate::text::chars_eq(trimmed.as_slice(), b.as_slice()) {
        None
    } else {
        Some(crate::text::string_from_chars(trimmed.as_slice()))
    }
}

/// A text is announced once: after announcing it, reading the same
/// clipboard text again announces nothing.
pub proof fn lemma_announced_once(last: Seq<char>, text: Seq<char>, announced: Seq<char>)
    requires
        clipboard_news(last, text) == Some(announced),
    ensures
        clipboard_news(announced, text) is None,
{
}

/// The read `r` holds a text that trims to `t`.
pub open spec fn read_gives(r: Option<Seq<char>>, t: Seq<char>) -> bool {
    r matches Some(u) && trim_ws(u) == t
}

/// The texts announced over a run of clipboard reads (`None` where a read
/// failed), starting from `last` as the last text announced: each read
/// goes through `clipboard_news`, and an announced text becomes the last.
pub open spec fn announcements(last: Seq<char>, reads: Seq<Option<Seq<char>>>) -> Seq<Seq<char>>
    decreases reads.len(),
{
    if reads.len() == 0 {
        Seq::empty()
    } else {
        let rest = reads.skip(1);
        match reads[0] {
            Some(text) => match clipboard_news(last, text) {
                Some(t) => seq![t] + announcements(t, rest),
                None => announcements(last, rest),
            },
            None => announcements(last, rest),
        }
    }
}

/// Over any run of reads, every text announced is a non-blank trimmed
/// read, the first differs from the text announced before the run, and no
/// text is announced twice in a row.
pub proof fn lemma_announcements(last: Seq<char>, reads: Seq<Option<Seq<char>>>)
    ensures
        forall|k: int|
            0 <= k < announcements(last, reads).len() ==> #[trigger] announcements(
                last,
                reads,
            )[k].len() > 0 && exists|j: int|
                0 <= j < reads.len() && read_gives(reads[j], announcements(last, reads)[k]),
        announcements(last, reads).len() > 0 ==> announcements(last, reads)[0] != last,
        forall|k: int|
            0 < k < announcements(last, reads).len() ==> #[trigger] announcements(last, reads)[k]
                != announcements(last, reads)[k - 1],
    decreases reads.len(),
{
    if reads.len() > 0 {
        let rest = reads.skip(1);
        let out = announcements(last, reads);
        match reads[0] {
            Some(text) => match clipboard_news(last, text) {
                Some(t) => {
                    lemma_announcements(t, rest);
                    let tail = announcements(t, rest);
                    assert(out == seq![t] + tail);
                    assert forall|k: int| 0 <= k < out.len() implies #[trigger] out[k].len() > 0
                        && exists|j: int|
                        0 <= j < reads.len() && read_gives(reads[j], out[k]) by {
                        if k == 0 {
                            assert(read_gives(reads[0], out[0]));
                        } else {
                            assert(out[k] == tail[k - 1]);
                            let j = choose|j: int|
                                0 <= j < rest.len() && read_gives(rest[j], tail[k - 1]);
                            assert(reads[j + 1] == rest[j]);
                        }
                    }
                    assert forall|k: int| 0 < k < out.len() implies #[trigger] out[k] != out[k
                        - 1] by {
                        if k == 1 {
                            assert(out[1] == tail[0]);
                        } else {
                            assert(out[k] == tail[k - 1] && out[k - 1] == tail[k - 2]);
                        }
                    }
                },
                None => {
                    lemma_announcements(last, rest);
                    assert forall|k: int| 0 <= k < out.len() implies #[trigger] out[k].len() > 0
                        && exists|j: int|
                        0 <= j < reads.len() && read_gives(reads[j], out[k]) by {
                        assert(out == announcements(last, rest));
                        assert(announcements(last, rest)[k].len() > 0);
                        let j = choose|j: int|
                            0 <= j < rest.len() && read_gives(rest[j], out[k]);
                        assert(reads[j + 1] == rest[j]);
                    }
                },
            },
            None => {
                lemma_announcements(last, rest);
                assert forall|k: int| 0 <= k < out.len() implies #[trigger] out[k].len() > 0
                    && exists|j: int|
                    0 <= j < reads.len() && read_gives(reads[j], out[k]) by {
                    assert(out == announcements(last, rest));
                    assert(announcements(last, rest)[k].len() > 0);
                    let j = choose|j: int|
                        0 <= j < rest.len() && read_gives(rest[j], out[k]);
                    assert(reads[j + 1] == rest[j]);
                }
            },
        }
    }
}

/// What one read announces after `last` was announced: the news it brings,
/// if any.
pub open spec fn read_step(last: Seq<char>, read: Option<Seq<char>>) -> Seq<Seq<char>> {
    match read {
        Some(text) => match clipboard_news(last, text) {
            Some(t) => seq![t],
            None => Seq::empty(),
        },
        None => Seq::empty(),
    }
}

/// The last text announced after a run of reads that started with `last`.
pub open spec fn last_announced(last: Seq<char>, reads: Seq<Option<Seq<char>>>) -> Seq<char>
    decreases reads.len(),
{
    if reads.len() == 0 {
        last
    } else {
        let rest = reads.skip(1);
        match reads[0] {
            Some(text) => match clipboard_news(last, text) {
                Some(t) => last_announced(t, rest),
                None => last_announced(last, rest),
            },
            None => last_announced(last, rest),
        }
    }
}

/// One more read adds to the announcements of a run exactly what that read
/// announces after the last text announced so far: so a watcher that feeds
/// each read to `ClipboardWatch::on_read` emits `announcements` of the run.
pub proof fn lemma_announcements_push(
    last: Seq<char>,
    reads: Seq<Option<Seq<char>>>,
    read: Option<Seq<char>>,
)
    ensures
        announcements(last, reads.push(read)) == announcements(last, reads) + read_step(
            last_announced(last, reads),
            read,
        ),
        last_announced(last, reads.push(read)) == (if read_step(
            last_announced(last, reads),
            read,
        ).len() == 0 {
            last_announced(last, reads)
        } else {
            read_step(last_announced(last, reads), read)[0]
        }),
    decreases reads.len(),
{
    let all = reads.push(read);
    if reads.len() == 0 {
        lemma_single_read(last, read);
        assert(all =~= seq![read]);
    } else {
        assert(all.skip(1) =~= reads.skip(1).push(read));
        assert(all[0] == reads[0]);
        match reads[0] {
            Some(text) => match clipboard_news(last, text) {
                Some(t) => {
                    lemma_announcements_push(t, reads.skip(1), read);
                    assert(announcements(last, all) =~= seq![t] + announcements(t, all.skip(1)));
                    assert(announcements(last, all) =~= announcements(last, reads) + read_step(
                        last_announced(last, reads),
                        read,
                    ));
                },
                None => {
                    lemma_announcements_push(last, reads.skip(1), read);
                },
            },
            None => {
                lemma_announcements_push(last, reads.skip(1), read);
            },
        }
    }
}

/// What a run of one read announces, and the last text after it.
proof fn lemma_single_read(last: Seq<char>, read: Option<Seq<char>>)
    ensures
        announcements(last, seq![read]) == read_step(last, read),
        last_announced(last, seq![read]) == (if read_step(last, read).len() == 0 {
            last
        } else {
            read_step(last, read)[0]
        }),
{
    let one = seq![read];
    let none = Seq::<Option<Seq<char>>>::empty();
    assert(one.skip(1) =~= none);
    assert(one[0] == read);
    match read {
        Some(text) => match clipboard_news(last, text) {
            Some(t) => {
                assert(announcements(t, none) =~= Seq::<Seq<char>>::empty());
                assert(last_announced(t, none) == t);
                assert(announcements(last, one) =~= seq![t]);
            },
            None => {
                assert(announcements(last, none) =~= Seq::<Seq<char>>::empty());
                assert(last_announced(last, none) == last);
            },
        },
        None => {
            assert(announcements(last, none) =~= Seq::<Seq<char>>::empty());
            assert(last_announced(last, none) == last);
        },
    }
}

/// A clipboard watcher: it remembers the last text announced and decides
/// what each new read announces.
pub struct ClipboardWatch {
    last: String,
}

/// The view of an optional string.
pub open spec fn read_view(read: Option<String>) -> Option<Seq<char>> {
    match read {
        Some(s) => Some(s@),
        None => None,
    }
}

impl ClipboardWatch {
    /// The last text announced.
    pub closed spec fn last_view(&self) -> Seq<char> {
        self.last@
    }

    /// A watcher that has announced nothing yet (the last text is empty).
    pub fn new() -> (w: ClipboardWatch)
        ensures
            w.last_view() == Seq::<char>::empty(),
    {
        ClipboardWatch { last: String::new() }
    }

    /// Takes one read (`None` when reading the clipboard failed) and returns
    /// the text to announce, if any: what `read_step` gives after the last
    /// text announced; an announced text becomes the last one.
    pub fn on_read(&mut self, read: Option<String>) -> (r: Option<String>)
        ensures
            read_step(old(self).last_view(), read_view(read)) == match r {
                Some(t) => seq![t@],
                None => Seq::<Seq<char>>::empty(),
            },
            final(self).last_view() == last_announced(
                old(self).last_view(),
                seq![read_view(read)],
            ),
    {
        proof {
            lemma_single_read(self.last@, read_view(read));
        }
        match read {
            Some(text) => match clipboard_update(self.last.as_str(), text.as_str()) {
                Some(news) => {
                    self.last = news.clone();
                    Some(news)
                },
                None => None,
            },
            None => None,
        }
    }
}

} // verus!
