//! Writing a record out as a line and reading the line again gives the
//! record, for records whose fields hold nothing that reads as a tag.

use crate::chars::{
    first_where, has_at, is_space, lemma_first_where, lemma_first_where_is, lemma_trimmed_len_is,
    trim, trim_end, trim_start, trimmed_len,
};
use crate::date::{date_at, date_text, lemma_date_text_reads_back, Date};
use crate::document::is_token;
use crate::laws::{
    is_date_char, lemma_completion_chars, lemma_completion_text, lemma_due_at_chars,
    lemma_due_at_moves, lemma_due_segment,
};
use crate::laws::lemma_trailing_alnum_start;
use crate::line::{
    checked_box, checked_upper_box, completion_at, completion_slot, completion_text, context_part,
    due_part, due_segment, first_completion, has_completion, is_task_line,
    lemma_trailing_alnum_start_is, marker_part, parsed, plain_line, project_part, reference_part,
    rendered, task_rest, task_state, trailing_alnum_start, unchecked_box, with_completion,
    without_completion, without_spaces,
};
use crate::record::ItemView;
use crate::tags::{
    bare_intro_at, bracket_end, context_of, due_at, due_of, due_prefix, first_intro, intro_at,
    is_alnum, marker_at, marker_of, project_of, reference_at, reference_of, reference_open,
    sigil_at, sigil_token, title_of, CHECK_MARK,
};
use vstd::prelude::*;

verus! {

/// Whether a tag is introduced in `s` at `j`, said character by character.
pub open spec fn intro_chars_at(s: Seq<char>, j: int) -> bool {
    &&& 0 <= j < s.len()
    &&& (s[j] == '+' || s[j] == '@' || s[j] == CHECK_MARK || s[j] == '^' || (j + 4 <= s.len()
        && s[j] == 'd' && s[j + 1] == 'u' && s[j + 2] == 'e' && s[j + 3] == ':') || (j + 2
        <= s.len() && s[j] == '[' && s[j + 1] == '['))
}

/// `bare_intro_at` is `intro_chars_at`.
pub proof fn lemma_intro_chars(s: Seq<char>, j: int)
    ensures
        bare_intro_at(s, j) == intro_chars_at(s, j),
{
    if 0 <= j < s.len() {
        if j + 4 <= s.len() {
            let cut = s.subrange(j, j + 4);
            assert(cut[0] == s[j] && cut[1] == s[j + 1] && cut[2] == s[j + 2] && cut[3] == s[j
                + 3]);
            if s[j] == 'd' && s[j + 1] == 'u' && s[j + 2] == 'e' && s[j + 3] == ':' {
                assert(cut =~= due_prefix());
            }
        }
        if j + 2 <= s.len() {
            let cut = s.subrange(j, j + 2);
            assert(cut[0] == s[j] && cut[1] == s[j + 1]);
            if s[j] == '[' && s[j + 1] == '[' {
                assert(cut =~= reference_open());
            }
        }
    }
}

/// Whether nothing in `s` introduces a tag.
pub open spec fn is_plain(s: Seq<char>) -> bool {
    forall|j: int| 0 <= j < s.len() ==> !bare_intro_at(s, j)
}

/// Whether `b` is nothing, or a space, `lead` and more that ends in no
/// white space, with a tag introduced at `lead` and nowhere else.
pub open spec fn is_block(b: Seq<char>, lead: char) -> bool {
    b.len() == 0 || (b.len() >= 3 && b[0] == ' ' && b[1] == lead && !is_space(b.last())
        && bare_intro_at(b, 1) && forall|j: int|
        0 <= j < b.len() && j != 1 ==> !bare_intro_at(b, j))
}

/// A tag that is introduced in the front part of a text, before a part that
/// is empty or starts with a space, is introduced in the front part alone.
pub proof fn lemma_intro_left(x: Seq<char>, y: Seq<char>, j: int)
    requires
        0 <= j < x.len(),
        bare_intro_at(x + y, j),
        y.len() == 0 || y[0] == ' ',
    ensures
        bare_intro_at(x, j),
{
    lemma_intro_chars(x + y, j);
    lemma_intro_chars(x, j);
    let s = x + y;
    assert(s[j] == x[j]);
    if j + 1 < s.len() {
        assert(s[j + 1] == if j + 1 < x.len() {
            x[j + 1]
        } else {
            y[j + 1 - x.len()]
        });
    }
    if j + 2 < s.len() {
        assert(s[j + 2] == if j + 2 < x.len() {
            x[j + 2]
        } else {
            y[j + 2 - x.len()]
        });
    }
    if j + 3 < s.len() {
        assert(s[j + 3] == if j + 3 < x.len() {
            x[j + 3]
        } else {
            y[j + 3 - x.len()]
        });
    }
}

/// A tag that is introduced in the back part of a text is introduced in the
/// back part alone.
pub proof fn lemma_intro_right(x: Seq<char>, y: Seq<char>, j: int)
    requires
        x.len() <= j,
        bare_intro_at(x + y, j),
    ensures
        bare_intro_at(y, j - x.len()),
{
    lemma_intro_chars(x + y, j);
    lemma_intro_chars(y, j - x.len());
    let s = x + y;
    let k = j - x.len();
    assert(s[j] == y[k]);
    if j + 1 < s.len() {
        assert(s[j + 1] == y[k + 1]);
    }
    if j + 2 < s.len() {
        assert(s[j + 2] == y[k + 2]);
    }
    if j + 3 < s.len() {
        assert(s[j + 3] == y[k + 3]);
    }
}

/// A text that starts and ends with something other than white space is
/// its own trimmed text.
pub proof fn lemma_trim_is_whole(s: Seq<char>)
    requires
        s.len() > 0,
        !is_space(s[0]),
        !is_space(s.last()),
    ensures
        trim(s) == s,
        trim_start(s) == s,
{
    lemma_first_where_is(|i: int| !is_space(s[i]), 0, s.len() as int, 0);
    assert(trim_start(s) =~= s);
    lemma_trimmed_len_is(s, s.len() as int);
    assert(trim_end(s) =~= s);
}

/// A trimmed text is empty or starts and ends with something other than
/// white space.
pub proof fn lemma_trim_ends(s: Seq<char>)
    ensures
        trim(s).len() > 0 ==> !is_space(trim(s)[0]) && !is_space(trim(s).last()),
        trim(trim(s)) == trim(s),
{
    let p = |i: int| !is_space(s[i]);
    lemma_first_where(p, 0, s.len() as int);
    let a = first_where(p, 0, s.len() as int);
    let t = trim_start(s);
    crate::chars::lemma_trimmed_len(t);
    let n = trimmed_len(t);
    let r = trim(s);
    assert(r =~= t.subrange(0, n));
    if r.len() > 0 {
        assert(p(a));
        assert(r[0] == s[a]);
        assert(r.last() == t[n - 1]);
        lemma_trim_is_whole(r);
    } else {
        assert(trim_start(r) =~= r);
        assert(trim(r) =~= r);
    }
}

/// What stands on a written line behind its checkbox: the title and six
/// parts, each of which may be missing.
pub ghost struct Layout {
    pub title: Seq<char>,
    pub project: Seq<char>,
    pub context: Seq<char>,
    pub due: Seq<char>,
    pub reference: Seq<char>,
    pub completion: Seq<char>,
    pub marker: Seq<char>,
}

impl Layout {
    /// The title and the parts in one text.
    pub open spec fn text(self) -> Seq<char> {
        self.title + self.project + self.context + self.due + self.reference + self.completion
            + self.marker
    }

    /// Where the project part starts.
    pub open spec fn at_project(self) -> int {
        self.title.len() as int
    }

    /// Where the context part starts.
    pub open spec fn at_context(self) -> int {
        self.at_project() + self.project.len()
    }

    /// Where the due part starts.
    pub open spec fn at_due(self) -> int {
        self.at_context() + self.context.len()
    }

    /// Where the reference part starts.
    pub open spec fn at_reference(self) -> int {
        self.at_due() + self.due.len()
    }

    /// Where the completion marker starts.
    pub open spec fn at_completion(self) -> int {
        self.at_reference() + self.reference.len()
    }

    /// Where the marker part starts.
    pub open spec fn at_marker(self) -> int {
        self.at_completion() + self.completion.len()
    }

    /// The title is not empty, has no white space around it and introduces
    /// no tag, and each part is a block with the lead of its kind.
    pub open spec fn well_formed(self) -> bool {
        &&& self.title.len() > 0
        &&& !is_space(self.title[0])
        &&& !is_space(self.title.last())
        &&& is_plain(self.title)
        &&& is_block(self.project, '+')
        &&& is_block(self.context, '@')
        &&& is_block(self.due, 'd')
        &&& is_block(self.reference, '[')
        &&& is_block(self.completion, CHECK_MARK)
        &&& is_block(self.marker, '^')
    }

    /// Whether `j` is the index of the lead of a part that is there.
    pub open spec fn is_lead(self, j: int) -> bool {
        ||| self.project.len() > 0 && j == self.at_project() + 1
        ||| self.context.len() > 0 && j == self.at_context() + 1
        ||| self.due.len() > 0 && j == self.at_due() + 1
        ||| self.reference.len() > 0 && j == self.at_reference() + 1
        ||| self.completion.len() > 0 && j == self.at_completion() + 1
        ||| self.marker.len() > 0 && j == self.at_marker() + 1
    }
}

/// Each character of a layout's text is the character of the part that it
/// falls into.
pub proof fn lemma_layout_chars(l: Layout)
    ensures
        l.text().len() == l.at_marker() + l.marker.len(),
        forall|p: int| 0 <= p < l.at_project() ==> #[trigger] l.text()[p] == l.title[p],
        forall|p: int|
            l.at_project() <= p < l.at_context() ==> #[trigger] l.text()[p] == l.project[p
                - l.at_project()],
        forall|p: int|
            l.at_context() <= p < l.at_due() ==> #[trigger] l.text()[p] == l.context[p
                - l.at_context()],
        forall|p: int|
            l.at_due() <= p < l.at_reference() ==> #[trigger] l.text()[p] == l.due[p - l.at_due()],
        forall|p: int|
            l.at_reference() <= p < l.at_completion() ==> #[trigger] l.text()[p] == l.reference[p
                - l.at_reference()],
        forall|p: int|
            l.at_completion() <= p < l.at_marker() ==> #[trigger] l.text()[p] == l.completion[p
                - l.at_completion()],
        forall|p: int|
            l.at_marker() <= p < l.text().len() ==> #[trigger] l.text()[p] == l.marker[p
                - l.at_marker()],
{
}

/// In the text of a layout, tags are introduced at the leads of its parts
/// and nowhere else.
pub proof fn lemma_layout_leads(l: Layout, j: int)
    requires
        l.well_formed(),
        bare_intro_at(l.text(), j),
    ensures
        l.is_lead(j),
{
    let x1 = l.title + l.project;
    let x2 = x1 + l.context;
    let x3 = x2 + l.due;
    let x4 = x3 + l.reference;
    let x5 = x4 + l.completion;
    if j >= x5.len() {
        lemma_intro_right(x5, l.marker, j);
    } else {
        lemma_intro_left(x5, l.marker, j);
        if j >= x4.len() {
            lemma_intro_right(x4, l.completion, j);
        } else {
            lemma_intro_left(x4, l.completion, j);
            if j >= x3.len() {
                lemma_intro_right(x3, l.reference, j);
            } else {
                lemma_intro_left(x3, l.reference, j);
                if j >= x2.len() {
                    lemma_intro_right(x2, l.due, j);
                } else {
                    lemma_intro_left(x2, l.due, j);
                    if j >= x1.len() {
                        lemma_intro_right(x1, l.context, j);
                    } else {
                        lemma_intro_left(x1, l.context, j);
                        if j >= l.title.len() {
                            lemma_intro_right(l.title, l.project, j);
                        } else {
                            lemma_intro_left(l.title, l.project, j);
                        }
                    }
                }
            }
        }
    }
}

/// A tag that is introduced in a part of a text is introduced in the text.
pub proof fn lemma_intro_embed(x: Seq<char>, y: Seq<char>, j: int)
    requires
        bare_intro_at(y, j),
    ensures
        bare_intro_at(x + y, x.len() + j),
{
    lemma_intro_chars(y, j);
    lemma_intro_chars(x + y, x.len() + j);
    let s = x + y;
    let k = x.len() + j;
    assert(s[k] == y[j]);
    if j + 1 < y.len() {
        assert(s[k + 1] == y[j + 1]);
    }
    if j + 2 < y.len() {
        assert(s[k + 2] == y[j + 2]);
    }
    if j + 3 < y.len() {
        assert(s[k + 3] == y[j + 3]);
    }
}

/// A tag that is introduced in the front part of a text is introduced in
/// the text.
pub proof fn lemma_intro_extend(x: Seq<char>, y: Seq<char>, j: int)
    requires
        bare_intro_at(x, j),
    ensures
        bare_intro_at(x + y, j),
{
    lemma_intro_chars(x, j);
    lemma_intro_chars(x + y, j);
    let s = x + y;
    assert(s[j] == x[j]);
    if j + 1 < x.len() {
        assert(s[j + 1] == x[j + 1]);
    }
    if j + 2 < x.len() {
        assert(s[j + 2] == x[j + 2]);
    }
    if j + 3 < x.len() {
        assert(s[j + 3] == x[j + 3]);
    }
}

/// The leads of the parts that are there introduce tags, each with the
/// character of its kind, and each part that is there ends before a space
/// or at the end of the text.
pub proof fn lemma_layout_parts(l: Layout)
    requires
        l.well_formed(),
    ensures
        forall|j: int| l.is_lead(j) ==> bare_intro_at(l.text(), j),
        forall|j: int| l.is_lead(j) ==> 1 <= j < l.text().len() && l.text()[j - 1] == ' ',
        l.project.len() > 0 ==> l.text()[l.at_project() + 1] == '+',
        l.context.len() > 0 ==> l.text()[l.at_context() + 1] == '@',
        l.due.len() > 0 ==> l.text()[l.at_due() + 1] == 'd',
        l.reference.len() > 0 ==> l.text()[l.at_reference() + 1] == '[',
        l.completion.len() > 0 ==> l.text()[l.at_completion() + 1] == CHECK_MARK,
        l.marker.len() > 0 ==> l.text()[l.at_marker() + 1] == '^',
        l.at_context() == l.text().len() || l.text()[l.at_context()] == ' ',
        l.at_due() == l.text().len() || l.text()[l.at_due()] == ' ',
        l.at_reference() == l.text().len() || l.text()[l.at_reference()] == ' ',
        l.at_completion() == l.text().len() || l.text()[l.at_completion()] == ' ',
        l.at_marker() == l.text().len() || l.text()[l.at_marker()] == ' ',
        !is_space(l.text()[0]),
        !is_space(l.text().last()),
{
    lemma_layout_chars(l);
    let x1 = l.title + l.project;
    let x2 = x1 + l.context;
    let x3 = x2 + l.due;
    let x4 = x3 + l.reference;
    let x5 = x4 + l.completion;
    assert forall|j: int| l.is_lead(j) implies bare_intro_at(l.text(), j) by {
        if l.project.len() > 0 && j == l.at_project() + 1 {
            lemma_intro_embed(l.title, l.project, 1);
            lemma_intro_extend(x1, l.context, j);
            lemma_intro_extend(x2, l.due, j);
            lemma_intro_extend(x3, l.reference, j);
            lemma_intro_extend(x4, l.completion, j);
            lemma_intro_extend(x5, l.marker, j);
        } else if l.context.len() > 0 && j == l.at_context() + 1 {
            lemma_intro_embed(x1, l.context, 1);
            lemma_intro_extend(x2, l.due, j);
            lemma_intro_extend(x3, l.reference, j);
            lemma_intro_extend(x4, l.completion, j);
            lemma_intro_extend(x5, l.marker, j);
        } else if l.due.len() > 0 && j == l.at_due() + 1 {
            lemma_intro_embed(x2, l.due, 1);
            lemma_intro_extend(x3, l.reference, j);
            lemma_intro_extend(x4, l.completion, j);
            lemma_intro_extend(x5, l.marker, j);
        } else if l.reference.len() > 0 && j == l.at_reference() + 1 {
            lemma_intro_embed(x3, l.reference, 1);
            lemma_intro_extend(x4, l.completion, j);
            lemma_intro_extend(x5, l.marker, j);
        } else if l.completion.len() > 0 && j == l.at_completion() + 1 {
            lemma_intro_embed(x4, l.completion, 1);
            lemma_intro_extend(x5, l.marker, j);
        } else {
            lemma_intro_embed(x5, l.marker, 1);
        }
    }
    assert forall|j: int| l.is_lead(j) implies 1 <= j < l.text().len() && l.text()[j - 1]
        == ' ' by {
        let t = l.text();
        assert(t[j - 1] == t[j - 1]);
    }
    let t = l.text();
    assert(t[0] == l.title[0]);
    assert(t[t.len() - 1] == t.last());
}

/// The title of a layout's text is the layout's title.
pub proof fn lemma_layout_title(l: Layout)
    requires
        l.well_formed(),
    ensures
        title_of(l.text()) == l.title,
{
    lemma_layout_chars(l);
    lemma_layout_parts(l);
    let t = l.text();
    let n = l.title.len() as int;
    assert forall|j: int| 0 <= j < n implies !intro_at(t, j) by {
        if bare_intro_at(t, j) {
            lemma_layout_leads(l, j);
        }
        if bare_intro_at(t, j + 1) {
            lemma_layout_leads(l, j + 1);
            assert(t[j] == l.title[j]);
        }
    }
    if n < t.len() {
        // the first part that is there starts behind the title
        assert(l.is_lead(n + 1));
        assert(bare_intro_at(t, n + 1));
        assert(t[n] == ' ');
        assert(intro_at(t, n));
    }
    lemma_first_where_is(|j: int| intro_at(t, j), 0, t.len() as int, n);
    assert(t.subrange(0, n) =~= l.title);
    lemma_trim_is_whole(l.title);
}

/// The token behind a sigil that leads a part of a layout: it runs from
/// behind the sigil to the end of the part.
proof fn lemma_layout_token(l: Layout, sigil: char, at: int, end: int, body: Seq<char>)
    requires
        l.well_formed(),
        is_token(body),
        l.is_lead(at + 1),
        l.text()[at + 1] == sigil,
        forall|j: int| l.is_lead(j) && j < at + 1 ==> l.text()[j] != sigil,
        end == at + 2 + body.len(),
        end <= l.text().len(),
        forall|p: int| at + 2 <= p < end ==> #[trigger] l.text()[p] == body[p - at - 2],
        end == l.text().len() || l.text()[end] == ' ',
        sigil == '+' || sigil == '@',
    ensures
        sigil_token(l.text(), sigil) == Some(body),
{
    let t = l.text();
    assert(t[at + 2] == body[0]);
    assert(sigil_at(t, sigil, at + 1));
    assert forall|j: int| 0 <= j < at + 1 implies !sigil_at(t, sigil, j) by {
        if sigil_at(t, sigil, j) {
            lemma_intro_chars(t, j);
            lemma_layout_leads(l, j);
        }
    }
    lemma_first_where_is(|j: int| sigil_at(t, sigil, j), 0, t.len() as int, at + 1);
    assert forall|j: int| at + 2 <= j < end implies !is_space(t[j]) by {
        assert(t[j] == body[j - at - 2]);
    }
    lemma_first_where_is(|j: int| is_space(t[j]), at + 2, t.len() as int, end);
    assert(t.subrange(at + 2, end) =~= body);
}

/// A layout whose parts do not lead with `sigil` has no token behind it.
proof fn lemma_layout_no_token(l: Layout, sigil: char)
    requires
        l.well_formed(),
        forall|j: int| l.is_lead(j) ==> l.text()[j] != sigil,
        sigil == '+' || sigil == '@',
    ensures
        sigil_token(l.text(), sigil) == None::<Seq<char>>,
{
    let t = l.text();
    assert forall|j: int| 0 <= j < t.len() implies !sigil_at(t, sigil, j) by {
        if sigil_at(t, sigil, j) {
            lemma_intro_chars(t, j);
            lemma_layout_leads(l, j);
        }
    }
    lemma_first_where_is(|j: int| sigil_at(t, sigil, j), 0, t.len() as int, t.len() as int);
}

/// The project of a layout's text is the body of its project part.
pub proof fn lemma_layout_project(l: Layout, body: Option<Seq<char>>)
    requires
        l.well_formed(),
        match body {
            Some(p) => is_token(p) && l.project == seq![' ', '+'] + p,
            None => l.project.len() == 0,
        },
    ensures
        project_of(l.text()) == body,
{
    lemma_layout_chars(l);
    lemma_layout_parts(l);
    match body {
        Some(p) => {
            assert(l.is_lead(l.at_project() + 1));
            assert forall|q: int| l.at_project() + 2 <= q < l.at_context() implies #[trigger] l.text()[q]
                == p[q - l.at_project() - 2] by {
                assert(l.project[q - l.at_project()] == p[q - l.at_project() - 2]);
            }
            lemma_layout_token(l, '+', l.at_project(), l.at_context(), p);
        },
        None => {
            lemma_layout_no_token(l, '+');
        },
    }
}

/// The context of a layout's text is the body of its context part.
pub proof fn lemma_layout_context(l: Layout, body: Option<Seq<char>>)
    requires
        l.well_formed(),
        match body {
            Some(c) => is_token(c) && l.context == seq![' ', '@'] + c,
            None => l.context.len() == 0,
        },
    ensures
        context_of(l.text()) == body,
{
    lemma_layout_chars(l);
    lemma_layout_parts(l);
    match body {
        Some(c) => {
            assert(l.is_lead(l.at_context() + 1));
            assert forall|q: int| l.at_context() + 2 <= q < l.at_due() implies #[trigger] l.text()[q]
                == c[q - l.at_context() - 2] by {
                assert(l.context[q - l.at_context()] == c[q - l.at_context() - 2]);
            }
            lemma_layout_token(l, '@', l.at_context(), l.at_due(), c);
        },
        None => {
            lemma_layout_no_token(l, '@');
        },
    }
}

/// The date written in `t` at `k` is the date written in `s` at `j`, where
/// the ten characters are the same.
pub proof fn lemma_date_at_moves(s: Seq<char>, j: int, t: Seq<char>, k: int)
    requires
        0 <= j,
        j + 10 <= s.len(),
        0 <= k,
        k + 10 <= t.len(),
        forall|p: int| k <= p < k + 10 ==> #[trigger] t[p] == s[p - k + j],
    ensures
        date_at(t, k) == date_at(s, j),
{
    assert(t[k] == s[j]);
    assert(t[k + 1] == s[j + 1]);
    assert(t[k + 2] == s[j + 2]);
    assert(t[k + 3] == s[j + 3]);
    assert(t[k + 4] == s[j + 4]);
    assert(t[k + 5] == s[j + 5]);
    assert(t[k + 6] == s[j + 6]);
    assert(t[k + 7] == s[j + 7]);
    assert(t[k + 8] == s[j + 8]);
    assert(t[k + 9] == s[j + 9]);
}

/// The due date of a layout's text is the date of its due part.
pub proof fn lemma_layout_due(l: Layout, due: Option<Date>)
    requires
        l.well_formed(),
        match due {
            Some(d) => d.well_formed() && l.due == seq![' '] + due_segment(d),
            None => l.due.len() == 0,
        },
    ensures
        due_of(l.text()) == due,
{
    lemma_layout_chars(l);
    lemma_layout_parts(l);
    let t = l.text();
    match due {
        Some(d) => {
            let seg = due_segment(d);
            lemma_due_segment(d);
            lemma_date_text_reads_back(d);
            let at = l.at_due() + 1;
            assert forall|p: int| at <= p < at + 14 implies #[trigger] t[p] == seg[p - at + 0] by {
                assert(t[p] == l.due[p - l.at_due()]);
            }
            lemma_due_at_moves(seg, 0, t, at);
            assert forall|j: int| 0 <= j < at implies !due_at(t, j) by {
                if due_at(t, j) {
                    lemma_due_at_chars(t, j);
                    lemma_layout_leads(l, j);
                }
            }
            lemma_first_where_is(|j: int| due_at(t, j), 0, t.len() as int, at);
            let text = date_text(d);
            assert forall|p: int| at + 4 <= p < at + 14 implies #[trigger] t[p] == text[p - (at
                + 4) + 0] by {
                assert(t[p] == seg[p - at]);
            }
            lemma_date_at_moves(text, 0, t, at + 4);
        },
        None => {
            assert forall|j: int| 0 <= j < t.len() implies !due_at(t, j) by {
                if due_at(t, j) {
                    lemma_due_at_chars(t, j);
                    lemma_layout_leads(l, j);
                }
            }
            lemma_first_where_is(|j: int| due_at(t, j), 0, t.len() as int, t.len() as int);
        },
    }
}

/// Whether `s` holds no square bracket.
pub open spec fn no_bracket(s: Seq<char>) -> bool {
    forall|i: int| 0 <= i < s.len() ==> #[trigger] s[i] != '[' && s[i] != ']'
}

/// The reference of a layout's text is the body of its reference part.
pub proof fn lemma_layout_reference(l: Layout, body: Option<Seq<char>>)
    requires
        l.well_formed(),
        match body {
            Some(r) => r.len() > 0 && trim(r) == r && no_bracket(r) && l.reference == seq![
                ' ',
                '[',
                '[',
            ] + r + seq![']', ']'],
            None => l.reference.len() == 0,
        },
    ensures
        reference_of(l.text()) == body,
{
    lemma_layout_chars(l);
    lemma_layout_parts(l);
    let t = l.text();
    assert forall|j: int| has_at(t, reference_open(), j) implies l.is_lead(j) && t[j] == '[' by {
        let cut = t.subrange(j, j + 2);
        assert(cut[0] == t[j]);
        lemma_layout_leads(l, j);
    }
    match body {
        Some(r) => {
            let at = l.at_reference() + 1;
            let end = at + 2 + r.len();
            assert forall|p: int| at + 2 <= p < end implies #[trigger] t[p] == r[p - at - 2] by {
                assert(t[p] == l.reference[p - l.at_reference()]);
            }
            assert(t[at] == l.reference[1]);
            assert(t[at + 1] == l.reference[2]);
            assert(t[end] == l.reference[end - l.at_reference()]);
            assert(t[end + 1] == l.reference[end + 1 - l.at_reference()]);
            assert(t.subrange(at, at + 2) =~= reference_open());
            assert forall|j: int| at + 2 <= j < end implies t[j] != ']' by {
                assert(t[j] == r[j - at - 2]);
            }
            lemma_first_where_is(|j: int| t[j] == ']', at + 2, t.len() as int, end);
            assert(bracket_end(t, at + 2) == end);
            assert(reference_at(t, at));
            assert forall|j: int| 0 <= j < at implies !reference_at(t, j) by {
                if reference_at(t, j) {
                    assert(has_at(t, reference_open(), j));
                }
            }
            lemma_first_where_is(|j: int| reference_at(t, j), 0, t.len() as int, at);
            assert(t.subrange(at + 2, end) =~= r);
        },
        None => {
            assert forall|j: int| 0 <= j < t.len() implies !reference_at(t, j) by {
                if reference_at(t, j) {
                    assert(has_at(t, reference_open(), j));
                }
            }
            lemma_first_where_is(|j: int| reference_at(t, j), 0, t.len() as int, t.len() as int);
        },
    }
}

/// Whether `s` holds letters and digits only, and at least one.
pub open spec fn is_marker(s: Seq<char>) -> bool {
    s.len() > 0 && forall|i: int| 0 <= i < s.len() ==> is_alnum(#[trigger] s[i])
}

/// The marker of a layout's text is the body of its marker part.
pub proof fn lemma_layout_marker(l: Layout, body: Option<Seq<char>>)
    requires
        l.well_formed(),
        match body {
            Some(m) => is_marker(m) && l.marker == seq![' ', '^'] + m,
            None => l.marker.len() == 0,
        },
    ensures
        marker_of(l.text()) == body,
{
    lemma_layout_chars(l);
    lemma_layout_parts(l);
    let t = l.text();
    assert forall|j: int| marker_at(t, j) implies l.is_lead(j) && t[j] == '^' by {
        lemma_intro_chars(t, j);
        lemma_layout_leads(l, j);
    }
    match body {
        Some(m) => {
            let at = l.at_marker() + 1;
            assert forall|p: int| at + 1 <= p < t.len() implies #[trigger] t[p] == m[p - at - 1] by {
                assert(t[p] == l.marker[p - l.at_marker()]);
            }
            assert(t[at + 1] == m[0]);
            assert(marker_at(t, at));
            assert forall|j: int| 0 <= j < at implies !marker_at(t, j) by {}
            lemma_first_where_is(|j: int| marker_at(t, j), 0, t.len() as int, at);
            assert forall|j: int| at + 1 <= j < t.len() implies is_alnum(t[j]) by {
                assert(t[j] == m[j - at - 1]);
            }
            lemma_first_where_is(|j: int| !is_alnum(t[j]), at + 1, t.len() as int, t.len() as int);
            assert(t.subrange(at + 1, t.len() as int) =~= m);
        },
        None => {
            assert forall|j: int| 0 <= j < t.len() implies !marker_at(t, j) by {}
            lemma_first_where_is(|j: int| marker_at(t, j), 0, t.len() as int, t.len() as int);
        },
    }
}

/// A text without white space stays as it is when its white space is
/// taken out.
pub proof fn lemma_without_spaces_of_token(s: Seq<char>)
    requires
        forall|i: int| 0 <= i < s.len() ==> !is_space(#[trigger] s[i]),
    ensures
        without_spaces(s) == s,
    decreases s.len(),
{
    if s.len() > 0 {
        let t = s.drop_last();
        assert forall|i: int| 0 <= i < t.len() implies !is_space(#[trigger] t[i]) by {
            assert(t[i] == s[i]);
        }
        lemma_without_spaces_of_token(t);
        assert(t.push(s.last()) =~= s);
    }
}

/// A sigil and a token that introduces no tag are a block.
pub proof fn lemma_token_block(sigil: char, body: Seq<char>)
    requires
        sigil == '+' || sigil == '@' || sigil == '^',
        is_token(body),
        is_plain(body),
    ensures
        is_block(seq![' ', sigil] + body, sigil),
{
    let lead = seq![' ', sigil];
    let b = lead + body;
    assert(b[0] == ' ' && b[1] == sigil);
    assert(b.last() == body.last());
    lemma_intro_chars(b, 1);
    lemma_intro_chars(b, 0);
    assert(b[1] == lead[1]);
    assert forall|j: int| 0 <= j < b.len() && j != 1 implies !bare_intro_at(b, j) by {
        if bare_intro_at(b, j) {
            if j >= 2 {
                lemma_intro_right(lead, body, j);
            }
        }
    }
}

/// A marker holds nothing that introduces a tag, and no white space.
pub proof fn lemma_marker_is_plain(m: Seq<char>)
    requires
        is_marker(m),
    ensures
        is_plain(m),
        is_token(m),
{
    assert forall|j: int| 0 <= j < m.len() implies !bare_intro_at(m, j) by {
        lemma_intro_chars(m, j);
        assert(is_alnum(m[j]));
        if j + 3 < m.len() {
            assert(is_alnum(m[j + 3]));
        }
        if j + 1 < m.len() {
            assert(is_alnum(m[j + 1]));
        }
    }
    assert forall|i: int| 0 <= i < m.len() implies !is_space(#[trigger] m[i]) by {
        assert(is_alnum(m[i]));
    }
}

/// A space and the due tag of a date are a block.
pub proof fn lemma_due_block(d: Date)
    requires
        d.well_formed(),
    ensures
        is_block(seq![' '] + due_segment(d), 'd'),
        (seq![' '] + due_segment(d)).len() == 15,
{
    let seg = due_segment(d);
    lemma_due_segment(d);
    lemma_due_at_chars(seg, 0);
    let b = seq![' '] + seg;
    assert forall|p: int| 1 <= p < 15 implies #[trigger] b[p] == seg[p - 1] by {}
    assert(b[0] == ' ');
    assert(b[1] == seg[0] && b[2] == seg[1] && b[3] == seg[2] && b[4] == seg[3]);
    assert(b.last() == seg[13]);
    assert(is_date_char(seg[13]));
    lemma_intro_chars(b, 1);
    assert forall|j: int| 0 <= j < b.len() && j != 1 implies !bare_intro_at(b, j) by {
        lemma_intro_chars(b, j);
        if j >= 5 {
            assert(b[j] == seg[j - 1]);
            assert(is_date_char(seg[j - 1]));
        }
    }
}

/// The completion marker for a date is a block.
pub proof fn lemma_completion_block(today: Date)
    requires
        today.well_formed(),
    ensures
        is_block(completion_text(today), CHECK_MARK),
        completion_text(today).len() == 13,
{
    let b = completion_text(today);
    lemma_completion_text(today);
    lemma_completion_chars(b, 0);
    assert(b[0] == ' ');
    lemma_intro_chars(b, 1);
    assert(is_date_char(b[12]));
    assert forall|j: int| 0 <= j < b.len() && j != 1 implies !bare_intro_at(b, j) by {
        lemma_intro_chars(b, j);
        if j >= 3 {
            assert(is_date_char(b[j]));
        }
    }
}

/// A reference between its brackets is a block, where it holds no bracket
/// and nothing that introduces a tag.
pub proof fn lemma_reference_block(r: Seq<char>)
    requires
        r.len() > 0,
        no_bracket(r),
        is_plain(r),
    ensures
        is_block(seq![' ', '[', '['] + r + seq![']', ']'], '['),
{
    let open = seq![' ', '[', '['];
    let close = seq![']', ']'];
    let b = open + r + close;
    assert(b[0] == ' ' && b[1] == '[' && b[2] == '[');
    assert(b.last() == ']');
    lemma_intro_chars(b, 1);
    assert forall|j: int| 0 <= j < b.len() && j != 1 implies !bare_intro_at(b, j) by {
        if bare_intro_at(b, j) {
            lemma_intro_chars(b, j);
            if j == 2 {
                assert(b[3] == r[0]);
            } else if 3 <= j < 3 + r.len() {
                lemma_intro_chars(r, j - 3);
                assert(b[j] == r[j - 3]);
                if j + 1 < 3 + r.len() {
                    assert(b[j + 1] == r[j - 2]);
                }
                if j + 2 < 3 + r.len() {
                    assert(b[j + 2] == r[j - 1]);
                }
                if j + 3 < 3 + r.len() {
                    assert(b[j + 3] == r[j]);
                } else if j + 3 < b.len() {
                    assert(b[j + 3] == ']');
                }
                assert(!bare_intro_at(r, j - 3));
            } else if j >= 3 + r.len() {
                assert(b[j] == ']');
            }
        }
    }
}

/// Whether the fields of `item` hold nothing that would read as a tag of
/// another kind, or end the field early, once the record is written out:
/// the title is not empty and introduces no tag; project and context are
/// single tokens that introduce no tag; the reference has no white space
/// around it, no square bracket and introduces no tag; the marker is letters
/// and digits; the due date is a date of the calendar.
pub open spec fn is_clean(item: ItemView) -> bool {
    &&& trim(item.title).len() > 0
    &&& is_plain(trim(item.title))
    &&& (item.project matches Some(p) ==> is_token(p) && is_plain(p))
    &&& (item.context matches Some(c) ==> is_token(c) && is_plain(c))
    &&& (item.due matches Some(d) ==> d.well_formed())
    &&& (item.reference matches Some(r) ==> r.len() > 0 && trim(r) == r && no_bracket(r)
        && is_plain(r))
    &&& (item.key.marker matches Some(m) ==> is_marker(m))
}

/// The checkbox of a task that is done or open.
pub open spec fn box_of(done: bool) -> Seq<char> {
    if done {
        checked_box()
    } else {
        unchecked_box()
    }
}

/// What the line of `item` holds behind its checkbox.
pub open spec fn layout_of(item: ItemView, today: Date) -> Layout {
    Layout {
        title: trim(item.title),
        project: project_part(item),
        context: context_part(item),
        due: due_part(item),
        reference: reference_part(item),
        completion: if item.done {
            completion_text(today)
        } else {
            Seq::<char>::empty()
        },
        marker: marker_part(item),
    }
}

/// The parts of a clean record are blocks, each made of its lead and the
/// field as it stands.
pub proof fn lemma_layout_of_clean(item: ItemView, today: Date)
    requires
        is_clean(item),
        item.done ==> today.well_formed(),
    ensures
        layout_of(item, today).well_formed(),
        match item.project {
            Some(p) => project_part(item) == seq![' ', '+'] + p,
            None => project_part(item).len() == 0,
        },
        match item.context {
            Some(c) => context_part(item) == seq![' ', '@'] + c,
            None => context_part(item).len() == 0,
        },
        match item.due {
            Some(d) => due_part(item) == seq![' '] + due_segment(d),
            None => due_part(item).len() == 0,
        },
        match item.reference {
            Some(r) => reference_part(item) == seq![' ', '[', '['] + r + seq![']', ']'],
            None => reference_part(item).len() == 0,
        },
        match item.key.marker {
            Some(m) => marker_part(item) == seq![' ', '^'] + m,
            None => marker_part(item).len() == 0,
        },
{
    lemma_trim_ends(item.title);
    let none = Seq::<char>::empty();
    match item.project {
        Some(p) => {
            lemma_without_spaces_of_token(p);
            lemma_token_block('+', p);
            assert(project_part(item) =~= seq![' ', '+'] + p);
        },
        None => {},
    }
    match item.context {
        Some(c) => {
            lemma_without_spaces_of_token(c);
            lemma_token_block('@', c);
            assert(context_part(item) =~= seq![' ', '@'] + c);
        },
        None => {},
    }
    match item.due {
        Some(d) => {
            lemma_due_block(d);
            assert(due_part(item) =~= seq![' '] + due_segment(d));
        },
        None => {},
    }
    match item.reference {
        Some(r) => {
            lemma_reference_block(r);
            assert(reference_part(item) =~= seq![' ', '[', '['] + r + seq![']', ']']);
        },
        None => {},
    }
    match item.key.marker {
        Some(m) => {
            lemma_marker_is_plain(m);
            lemma_token_block('^', m);
            assert(marker_part(item) =~= seq![' ', '^'] + m);
        },
        None => {},
    }
    if item.done {
        lemma_completion_block(today);
    }
}

/// A checkbox, a space and the text of a layout without completion marker
/// hold no completion marker, and a new one goes in before the marker part.
proof fn lemma_completion_goes_in(l: Layout, done: bool, m: Option<Seq<char>>)
    requires
        l.well_formed(),
        l.completion.len() == 0,
        match m {
            Some(m) => is_marker(m) && l.marker == seq![' ', '^'] + m,
            None => l.marker.len() == 0,
        },
    ensures
        !has_completion(box_of(done) + seq![' '] + l.text()),
        completion_slot(box_of(done) + seq![' '] + l.text()) == 6 + l.at_marker(),
{
    lemma_layout_chars(l);
    lemma_layout_parts(l);
    let head = box_of(done) + seq![' '];
    let t = l.text();
    let s = head + t;
    assert(s =~= box_of(done) + seq![' '] + l.text());
    assert(head.len() == 6);
    assert(head[0] == '-' && head[1] == ' ' && head[2] == '[' && head[4] == ']' && head[5] == ' ');
    assert(head[3] == 'x' || head[3] == ' ');
    assert forall|j: int| 0 <= j < s.len() && (s[j] == CHECK_MARK || s[j] == '^') implies j >= 6
        && l.is_lead(j - 6) && t[j - 6] == s[j] by {
        if j < 6 {
            assert(s[j] == head[j]);
        } else {
            assert(s[j] == t[j - 6]);
            lemma_intro_chars(t, j - 6);
            lemma_layout_leads(l, j - 6);
        }
    }
    assert forall|j: int| 0 <= j < s.len() implies !completion_at(s, j) by {
        if completion_at(s, j) {
            assert(s[j + 1] == CHECK_MARK);
        }
    }
    lemma_first_where_is(|j: int| completion_at(s, j), 0, s.len() as int, s.len() as int);
    let a = trailing_alnum_start(s);
    lemma_trailing_alnum_start(s);
    match m {
        Some(m) => {
            let at = 6 + l.at_marker();
            assert(s.len() == at + 2 + m.len());
            assert forall|j: int| at + 2 <= j < s.len() implies is_alnum(s[j]) by {
                assert(s[j] == t[j - 6]);
                assert(t[j - 6] == l.marker[j - 6 - l.at_marker()]);
                assert(l.marker[j - 6 - l.at_marker()] == m[j - at - 2]);
            }
            assert(s[at + 1] == t[at + 1 - 6]);
            assert(s[at] == t[at - 6]);
            assert(t[l.at_marker()] == l.marker[0]);
            lemma_trailing_alnum_start_is(s, at + 2);
        },
        None => {
            if a < s.len() && a >= 2 && s[a - 1] == '^' {
                assert(l.is_lead(a - 1 - 6));
                assert(false);
            }
        },
    }
}

/// `l` with `ct` as its completion marker.
pub open spec fn completed(l: Layout, ct: Seq<char>) -> Layout {
    Layout { completion: ct, ..l }
}

/// The line of a record before its completion marker is its checkbox, a
/// space and its layout without completion marker.
proof fn lemma_plain_line_layout(item: ItemView, today: Date)
    ensures
        plain_line(item) == box_of(item.done) + seq![' '] + completed(
            layout_of(item, today),
            Seq::<char>::empty(),
        ).text(),
        item.done || completed(layout_of(item, today), Seq::<char>::empty()).text() == layout_of(
            item,
            today,
        ).text(),
{
    let l = layout_of(item, today);
    let bare = completed(l, Seq::<char>::empty());
    assert(plain_line(item) =~= box_of(item.done) + seq![' '] + bare.text());
    if !item.done {
        assert(l.text() =~= bare.text());
    }
}

/// Putting a completion marker into a line before its marker part gives the
/// layout with that completion marker.
proof fn lemma_completion_in_layout(head: Seq<char>, bare: Layout, ct: Seq<char>)
    requires
        bare.completion.len() == 0,
        head.len() == 6,
    ensures
        (head + bare.text()).subrange(0, 6 + bare.at_marker()) + ct + (head + bare.text()).subrange(
            6 + bare.at_marker(),
            (head + bare.text()).len() as int,
        ) == head + completed(bare, ct).text(),
{
    let s = head + bare.text();
    let k = 6 + bare.at_marker();
    let full = completed(bare, ct);
    let front = bare.title + bare.project + bare.context + bare.due + bare.reference;
    assert(bare.text() =~= front + bare.marker);
    assert(full.text() =~= front + ct + bare.marker);
    assert(s.subrange(0, k) =~= head + front);
    assert(s.subrange(k, s.len() as int) =~= bare.marker);
    assert(s.subrange(0, k) + ct + s.subrange(k, s.len() as int) =~= head + (front + ct
        + bare.marker));
}

/// The line that a clean record is written as: its checkbox, a space and
/// its layout.
pub proof fn lemma_rendered_layout(item: ItemView, today: Date)
    requires
        is_clean(item),
        item.done ==> today.well_formed(),
    ensures
        rendered(item, today) == Some(
            box_of(item.done) + seq![' '] + layout_of(item, today).text(),
        ),
{
    lemma_layout_of_clean(item, today);
    lemma_plain_line_layout(item, today);
    let l = layout_of(item, today);
    let bare = completed(l, Seq::<char>::empty());
    let head = box_of(item.done) + seq![' '];
    let plain = plain_line(item);
    assert(plain == head + bare.text());
    assert(bare.well_formed());
    lemma_completion_goes_in(bare, item.done, item.key.marker);
    if item.done {
        lemma_completion_in_layout(head, bare, completion_text(today));
        assert(completed(bare, completion_text(today)) == l);
        assert(with_completion(plain, today) == head + l.text());
    } else {
        assert(first_completion(plain) >= plain.len());
        assert(without_completion(plain) == plain);
    }
}

/// A checkbox, a space and a text that starts and ends with something
/// other than white space read as a task with that text behind the
/// checkbox.
proof fn lemma_reads_task(t: Seq<char>, done: bool)
    requires
        t.len() > 0,
        !is_space(t[0]),
        !is_space(t.last()),
    ensures
        is_task_line(box_of(done) + seq![' '] + t),
        task_rest(box_of(done) + seq![' '] + t) == t,
        task_state(trim_start(box_of(done) + seq![' '] + t)) == Some(done),
{
    let head = box_of(done) + seq![' '];
    let s = head + t;
    assert(head.len() == 6);
    assert(s[0] == head[0]);
    assert(s.last() == t.last());
    lemma_trim_is_whole(s);
    assert(s.subrange(0, 6) =~= head);
    assert(s.subrange(6, s.len() as int) =~= t);
    lemma_trim_is_whole(t);
    let checked = checked_box() + seq![' '];
    let upper = checked_upper_box() + seq![' '];
    let open = unchecked_box() + seq![' '];
    assert(head[3] == if done {
        'x'
    } else {
        ' '
    });
    assert(checked[3] == 'x' && upper[3] == 'X' && open[3] == ' ');
    assert(checked.len() == 6 && upper.len() == 6 && open.len() == 6);
    if done {
        assert(head =~= checked);
    } else {
        assert(head =~= open);
    }
}

/// A clean record, written out as a line and read again, is the record it
/// was, with its title trimmed: title, project, context, due date,
/// reference, marker and state are what they were.
pub proof fn law_written_record_reads_back(item: ItemView, today: Date)
    requires
        is_clean(item),
        item.done ==> today.well_formed(),
    ensures
        rendered(item, today) is Some,
        parsed(rendered(item, today)->0, item.key.line_index, item.section) == Some(
            ItemView { title: trim(item.title), ..item },
        ),
{
    lemma_layout_of_clean(item, today);
    lemma_rendered_layout(item, today);
    let l = layout_of(item, today);
    lemma_layout_parts(l);
    lemma_reads_task(l.text(), item.done);
    lemma_layout_title(l);
    lemma_layout_project(l, item.project);
    lemma_layout_context(l, item.context);
    lemma_layout_due(l, item.due);
    lemma_layout_reference(l, item.reference);
    lemma_layout_marker(l, item.key.marker);
}

/// A task line that reads as a clean record reads as the same record once
/// it is written anew from that record: field for field what it was.
pub proof fn law_read_write_read(line: Seq<char>, line_index: usize, section: Seq<char>, today: Date)
    requires
        parsed(line, line_index, section) is Some,
        is_clean(parsed(line, line_index, section)->0),
        parsed(line, line_index, section)->0.done ==> today.well_formed(),
    ensures
        rendered(parsed(line, line_index, section)->0, today) is Some,
        parsed(rendered(parsed(line, line_index, section)->0, today)->0, line_index, section)
            == parsed(line, line_index, section),
{
    let item = parsed(line, line_index, section)->0;
    law_written_record_reads_back(item, today);
    law_title_is_not_empty(line, line_index, section);
}

/// The title of a task that was read is not empty and has no white space
/// around it.
pub proof fn law_title_is_not_empty(line: Seq<char>, line_index: usize, section: Seq<char>)
    requires
        parsed(line, line_index, section) is Some,
    ensures
        parsed(line, line_index, section)->0.title.len() > 0,
        trim(parsed(line, line_index, section)->0.title) == parsed(
            line,
            line_index,
            section,
        )->0.title,
{
    let item = parsed(line, line_index, section)->0;
    let rest = task_rest(line);
    lemma_trim_ends(trim_start(line).subrange(6, trim_start(line).len() as int));
    lemma_trim_ends(rest.subrange(0, first_intro(rest)));
    if trim(rest.subrange(0, first_intro(rest))).len() == 0 {
        assert(item.title == rest);
        lemma_trim_is_whole(rest);
    }
}

} // verus!
