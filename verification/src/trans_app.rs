//! The translation window's state: the language lists, swapping the
//! languages and texts, and what each button does to what the window shows.
//! The window toolkit draws the state and runs the requests.

use vstd::prelude::*;
use crate::engine::{error_text, ErrorView, TranslateError};
use crate::text::{all_whitespace, all_ws, chars_of, push_str};

verus! {

broadcast use vstd::string::group_string_axioms;

/// Number of entries of the source-language list; entry 0 is "detect".
pub const SOURCE_COUNT: usize = 9;

/// Number of entries of the target-language list.
pub const TARGET_COUNT: usize = 8;

/// Code of the source language at `index` of the list (`auto`, `zh-CN`,
/// `en`, `ja`, `ko`, `fr`, `de`, `es`, `ru`).
pub open spec fn source_code_at(index: int) -> Seq<char> {
    if index == 0 {
        "auto"@
    } else {
        target_code_at(index - 1)
    }
}

/// Code of the target language at `index` of the list (`zh-CN`, `en`,
/// `ja`, `ko`, `fr`, `de`, `es`, `ru`).
pub open spec fn target_code_at(index: int) -> Seq<char> {
    if index == 0 {
        "zh-CN"@
    } else if index == 1 {
        "en"@
    } else if index == 2 {
        "ja"@
    } else if index == 3 {
        "ko"@
    } else if index == 4 {
        "fr"@
    } else if index == 5 {
        "de"@
    } else if index == 6 {
        "es"@
    } else {
        "ru"@
    }
}

/// An index of a list of `count` entries, moved onto its last entry when it
/// lies past it.
pub open spec fn clamp_index(index: int, count: int) -> int {
    if index < count - 1 {
        index
    } else {
        count - 1
    }
}

/// The code of the target language at `index`.
pub fn target_code(index: usize) -> (r: &'static str)
    ensures
        r@ == target_code_at(clamp_index(index as int, TARGET_COUNT as int)),
{
    match index {
        0 => "zh-CN",
        1 => "en",
        2 => "ja",
        3 => "ko",
        4 => "fr",
        5 => "de",
        6 => "es",
        _ => "ru",
    }
}

/// The code of the source language at `index`.
pub fn source_code(index: usize) -> (r: &'static str)
    ensures
        r@ == source_code_at(clamp_index(index as int, SOURCE_COUNT as int)),
{
    if index == 0 {
        "auto"
    } else {
        target_code(index - 1)
    }
}

/// The list positions after swapping languages: a concrete source and the
/// target trade places (the target list lacks "detect", so it sits one
/// entry lower); a detected source becomes Chinese, or English where the
/// target was Chinese, and the target moves to the source list.
pub open spec fn swapped_indices(src: int, dst: int) -> (int, int) {
    if src == 0 {
        (dst + 1, if dst == 0 { 1 } else { 0 })
    } else {
        (dst + 1, src - 1)
    }
}

/// Swaps the languages, and the texts too where there is a translation
/// (an output that is not blank) to swap with.
pub fn swap_state(src: usize, dst: usize, input: String, output: String) -> (r: (usize, usize, String, String))
    requires
        dst < usize::MAX,
    ensures
        (r.0 as int, r.1 as int) == swapped_indices(src as int, dst as int),
        !all_ws(output@) ==> r.2@ == output@ && r.3@ == input@,
        all_ws(output@) ==> r.2@ == input@ && r.3@ == output@,
{
    let (new_src, new_dst) = if src == 0 {
        (dst + 1, if dst == 0 { 1 } else { 0 })
    } else {
        (dst + 1, src - 1)
    };
    let ov = chars_of(output.as_str());
    if !all_whitespace(&ov) {
        (new_src, new_dst, output, input)
    } else {
        (new_src, new_dst, input, output)
    }
}

/// Swapping twice, from a concrete source language, gives back the
/// languages; and the texts too, unless a blank source text was traded for a
/// translation.
pub proof fn lemma_swap_twice(src: int, dst: int, input: Seq<char>, output: Seq<char>)
    requires
        src != 0,
        dst >= 0,
    ensures
        ({
            let (s1, d1) = swapped_indices(src, dst);
            swapped_indices(s1, d1) == (src, dst)
        }),
        all_ws(output) || !all_ws(input) ==> ({
            let (i1, o1) = if all_ws(output) { (input, output) } else { (output, input) };
            let (i2, o2) = if all_ws(o1) { (i1, o1) } else { (o1, i1) };
            i2 == input && o2 == output
        }),
{
}

/// What the translation window shows.
pub struct TransView {
    pub src_index: usize,
    pub dst_index: usize,
    pub input: String,
    pub output: String,
    pub error: String,
    pub status: String,
    pub pending: bool,
    pub can_translate: bool,
    pub can_copy: bool,
    pub copied: bool,
}

/// A translation to run: the text and the two language codes.
#[derive(Debug, Clone, PartialEq, Eq)]
pub struct TranslateJob {
    pub text: String,
    pub src: &'static str,
    pub dst: &'static str,
}

/// `引擎：` and the engine's name.
pub open spec fn status_line(engine: Seq<char>) -> Seq<char> {
    "引擎："@ + engine
}

impl TransView {
    /// The window as it opens: Chinese-from-detected, nothing typed, the
    /// engine named in the status line.
    pub fn new(engine_name: &str) -> (r: TransView)
        ensures
            r.src_index == 0 && r.dst_index == 0,
            r.input@.len() == 0 && r.output@.len() == 0 && r.error@.len() == 0,
            r.status@ == status_line(engine_name@),
            !r.pending && !r.can_translate && !r.can_copy && !r.copied,
    {
        let mut status = String::new();
        push_str(&mut status, "引擎：");
        push_str(&mut status, engine_name);
        TransView {
            src_index: 0,
            dst_index: 0,
            input: String::new(),
            output: String::new(),
            error: String::new(),
            status,
            pending: false,
            can_translate: false,
            can_copy: false,
            copied: false,
        }
    }

    /// The user edited the source text: translating is offered when it is
    /// not blank.
    pub fn input_edited(&mut self, text: String)
        ensures
            final(self).input@ == text@,
            final(self).can_translate == !all_ws(text@),
            final(self).src_index == old(self).src_index && final(self).dst_index == old(self).dst_index,
            final(self).output == old(self).output && final(self).error == old(self).error,
            final(self).status == old(self).status,
            final(self).pending == old(self).pending && final(self).can_copy == old(self).can_copy,
            final(self).copied == old(self).copied,
    {
        let tv = chars_of(text.as_str());
        self.can_translate = !all_whitespace(&tv);
        self.input = text;
    }

    /// The swap button: languages and texts as [`swap_state`] has them, and
    /// the buttons offered for the texts that now stand.
    pub fn swap(&mut self)
        requires
            old(self).dst_index < usize::MAX,
        ensures
            (final(self).src_index as int, final(self).dst_index as int) == swapped_indices(
                old(self).src_index as int,
                old(self).dst_index as int,
            ),
            !all_ws(old(self).output@) ==> final(self).input@ == old(self).output@ && final(self).output@
                == old(self).input@,
            all_ws(old(self).output@) ==> final(self).input@ == old(self).input@ && final(self).output@
                == old(self).output@,
            final(self).can_translate == !all_ws(final(self).input@),
            final(self).can_copy == !all_ws(final(self).output@),
            final(self).error == old(self).error && final(self).status == old(self).status,
            final(self).pending == old(self).pending && final(self).copied == old(self).copied,
    {
        let mut input = String::new();
        let mut output = String::new();
        std::mem::swap(&mut input, &mut self.input);
        std::mem::swap(&mut output, &mut self.output);
        let (s, d, i, o) = swap_state(self.src_index, self.dst_index, input, output);
        self.src_index = s;
        self.dst_index = d;
        let iv = chars_of(i.as_str());
        let ov = chars_of(o.as_str());
        self.can_translate = !all_whitespace(&iv);
        self.can_copy = !all_whitespace(&ov);
        self.input = i;
        self.output = o;
    }

    /// The translate button: nothing while a translation runs; an error for
    /// a blank text; else the job to run, and the window waits for it.
    pub fn begin_translate(&mut self) -> (r: Option<TranslateJob>)
        ensures
            old(self).pending ==> r is None && *final(self) == *old(self),
            !old(self).pending && all_ws(old(self).input@) ==> r is None && final(self).error@ == error_text(
                ErrorView::Empty,
            ) && final(self).pending == false,
            !old(self).pending && !all_ws(old(self).input@) ==> (r matches Some(job) && job.text@ == old(self).input@ && job.src@ == source_code_at(clamp_index(old(self).src_index as int, SOURCE_COUNT as int))
                && job.dst@ == target_code_at(clamp_index(old(self).dst_index as int, TARGET_COUNT as int))
                && final(self).pending && final(self).error@.len() == 0),
            final(self).input == old(self).input && final(self).output == old(self).output,
            final(self).src_index == old(self).src_index && final(self).dst_index == old(self).dst_index,
            final(self).status == old(self).status,
            final(self).can_translate == old(self).can_translate && final(self).can_copy == old(self).can_copy,
            final(self).copied == old(self).copied,
    {
        if self.pending {
            return None;
        }
        let iv = chars_of(self.input.as_str());
        if all_whitespace(&iv) {
            self.error = TranslateError::Empty.message();
            return None;
        }
        let job = TranslateJob {
            text: self.input.clone(),
            src: source_code(self.src_index),
            dst: target_code(self.dst_index),
        };
        self.pending = true;
        self.error = String::new();
        Some(job)
    }

    /// The outcome of the job arrived: the translation replaces the output
    /// and clears the error, or the error is shown and the output kept.
    pub fn finish_translate(&mut self, result: Result<String, TranslateError>)
        ensures
            !final(self).pending,
            result matches Ok(t) ==> final(self).output@ == t@ && final(self).error@.len() == 0
                && final(self).can_copy == !all_ws(t@),
            result matches Err(e) ==> final(self).error@ == error_text(e@) && final(self).output
                == old(self).output && final(self).can_copy == old(self).can_copy,
            final(self).input == old(self).input && final(self).status == old(self).status,
            final(self).src_index == old(self).src_index && final(self).dst_index == old(self).dst_index,
            final(self).can_translate == old(self).can_translate && final(self).copied == old(self).copied,
    {
        self.pending = false;
        match result {
            Ok(t) => {
                let tv = chars_of(t.as_str());
                self.can_copy = !all_whitespace(&tv);
                self.output = t;
                self.error = String::new();
            },
            Err(e) => {
                self.error = e.message();
            },
        }
    }

    /// The copy button: the text to put on the clipboard, if the output is
    /// not blank; the window then shows that it copied.
    pub fn copy_output(&mut self) -> (r: Option<String>)
        ensures
            all_ws(old(self).output@) ==> r is None && final(self).copied == old(self).copied,
            !all_ws(old(self).output@) ==> (r matches Some(t) && t@ == old(self).output@ && final(self).copied),
            final(self).input == old(self).input && final(self).output == old(self).output,
            final(self).error == old(self).error && final(self).status == old(self).status,
            final(self).src_index == old(self).src_index && final(self).dst_index == old(self).dst_index,
            final(self).pending == old(self).pending && final(self).can_translate == old(self).can_translate,
            final(self).can_copy == old(self).can_copy,
    {
        let ov = chars_of(self.output.as_str());
        if all_whitespace(&ov) {
            return None;
        }
        self.copied = true;
        Some(self.output.clone())
    }

    /// The copy confirmation timed out.
    pub fn copy_expired(&mut self)
        ensures
            !final(self).copied,
            final(self).input == old(self).input && final(self).output == old(self).output,
            final(self).error == old(self).error && final(self).status == old(self).status,
            final(self).src_index == old(self).src_index && final(self).dst_index == old(self).dst_index,
            final(self).pending == old(self).pending && final(self).can_translate == old(self).can_translate,
            final(self).can_copy == old(self).can_copy,
    {
        self.copied = false;
    }
}

/// The codes of the target list, in list order, written out letter by letter.
proof fn lemma_target_code_letters(i: int)
    requires
        0 <= i < TARGET_COUNT,
    ensures
        i == 0 ==> target_code_at(i) == seq!['z', 'h', '-', 'C', 'N'],
        i == 1 ==> target_code_at(i) == seq!['e', 'n'],
        i == 2 ==> target_code_at(i) == seq!['j', 'a'],
        i == 3 ==> target_code_at(i) == seq!['k', 'o'],
        i == 4 ==> target_code_at(i) == seq!['f', 'r'],
        i == 5 ==> target_code_at(i) == seq!['d', 'e'],
        i == 6 ==> target_code_at(i) == seq!['e', 's'],
        i == 7 ==> target_code_at(i) == seq!['r', 'u'],
{
    reveal_strlit("zh-CN");
    reveal_strlit("en");
    reveal_strlit("ja");
    reveal_strlit("ko");
    reveal_strlit("fr");
    reveal_strlit("de");
    reveal_strlit("es");
    reveal_strlit("ru");
}

/// Two entries of the target list never stand for one language: distinct
/// positions give distinct codes.
pub proof fn lemma_target_codes_distinct(i: int, j: int)
    requires
        0 <= i < TARGET_COUNT,
        0 <= j < TARGET_COUNT,
        i != j,
    ensures
        target_code_at(i) != target_code_at(j),
{
    lemma_target_code_letters(i);
    lemma_target_code_letters(j);
    let a = target_code_at(i);
    let b = target_code_at(j);
    assert(a.len() != b.len() || a[0] != b[0] || a[1] != b[1]);
}

/// Two entries of the source list never stand for one language; the first,
/// "detect", is the only one that detects.
pub proof fn lemma_source_codes_distinct(i: int, j: int)
    requires
        0 <= i < SOURCE_COUNT,
        0 <= j < SOURCE_COUNT,
        i != j,
    ensures
        source_code_at(i) != source_code_at(j),
        (source_code_at(i) == "auto"@) <==> i == 0,
{
    reveal_strlit("auto");
    if i > 0 {
        lemma_target_code_letters(i - 1);
        assert(source_code_at(i).len() != 4 || source_code_at(i)[0] != 'a');
    }
    if j > 0 {
        lemma_target_code_letters(j - 1);
        assert(source_code_at(j).len() != 4 || source_code_at(j)[0] != 'a');
    }
    if i > 0 && j > 0 {
        lemma_target_codes_distinct(i - 1, j - 1);
    }
}

} // verus!
