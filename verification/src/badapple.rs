use vstd::prelude::*;
use crate::text::{string_from_chars, chars_of};

verus! {

/// A line without the carriage return that ends it, if any.
pub open spec fn strip_cr(l: Seq<char>) -> Seq<char> {
    if l.len() > 0 && l.last() == '\r' {
        l.drop_last()
    } else {
        l
    }
}

/// The lines finished so far and the line in progress, after reading `s`.
pub open spec fn lines_state(s: Seq<char>) -> (Seq<Seq<char>>, Seq<char>)
    decreases s.len(),
{
    if s.len() == 0 {
        (Seq::empty(), Seq::empty())
    } else {
        let (done, cur) = lines_state(s.drop_last());
        if s.last() == '\n' {
            (done.push(strip_cr(cur)), Seq::empty())
        } else {
            (done, cur.push(s.last()))
        }
    }
}

/// The lines of `s` as `str::lines` gives them: split at each `\n`, a `\r` before the
/// `\n` removed, and no empty line after a final `\n`.
pub open spec fn text_lines(s: Seq<char>) -> Seq<Seq<char>> {
    let (done, cur) = lines_state(s);
    if cur.len() > 0 {
        done.push(cur)
    } else {
        done
    }
}

/// Unicode `White_Space`, the characters `char::is_whitespace` accepts.
pub open spec fn is_white_space(c: char) -> bool {
    let v = c as u32;
    ||| (0x09 <= v && v <= 0x0D)
    ||| v == 0x20
    ||| v == 0x85
    ||| v == 0xA0
    ||| v == 0x1680
    ||| (0x2000 <= v && v <= 0x200A)
    ||| v == 0x2028
    ||| v == 0x2029
    ||| v == 0x202F
    ||| v == 0x205F
    ||| v == 0x3000
}

/// `l` is `---` at position `i` with only white space before and after.
pub open spec fn dashes_at(l: Seq<char>, i: int) -> bool {
    &&& 0 <= i && i + 3 <= l.len()
    &&& l[i] == '-' && l[i + 1] == '-' && l[i + 2] == '-'
    &&& forall|k: int| 0 <= k < i ==> is_white_space(#[trigger] l[k])
    &&& forall|k: int| i + 3 <= k < l.len() ==> is_white_space(#[trigger] l[k])
}

/// A frame separator: a line that is `---` once surrounding white space is trimmed.
pub open spec fn is_separator(l: Seq<char>) -> bool {
    exists|i: int| #[trigger] dashes_at(l, i)
}

/// The frames completed so far and the frame in progress, after reading `lines`.
pub open spec fn frames_state(lines: Seq<Seq<char>>) -> (Seq<Seq<Seq<char>>>, Seq<Seq<char>>)
    decreases lines.len(),
{
    if lines.len() == 0 {
        (Seq::empty(), Seq::empty())
    } else {
        let (done, cur) = frames_state(lines.drop_last());
        if is_separator(lines.last()) {
            if cur.len() > 0 {
                (done.push(cur), Seq::empty())
            } else {
                (done, cur)
            }
        } else {
            (done, cur.push(lines.last()))
        }
    }
}

/// The frames of a list of lines: the maximal runs of lines between separators,
/// leaving out empty ones.
pub open spec fn frames_of(lines: Seq<Seq<char>>) -> Seq<Seq<Seq<char>>> {
    let (done, cur) = frames_state(lines);
    if cur.len() > 0 {
        done.push(cur)
    } else {
        done
    }
}

/// Whether `c` is white space, as `char::is_whitespace` decides.
fn is_whitespace(c: char) -> (b: bool)
    ensures
        b == is_white_space(c),
{
    let v = c as u32;
    (0x09 <= v && v <= 0x0D) || v == 0x20 || v == 0x85 || v == 0xA0 || v == 0x1680 || (0x2000 <= v
        && v <= 0x200A) || v == 0x2028 || v == 0x2029 || v == 0x202F || v == 0x205F || v == 0x3000
}

/// Whether a line is a frame separator.
fn separator_line(l: &Vec<char>) -> (b: bool)
    ensures
        b == is_separator(l@),
{
    let n = l.len();
    let mut i: usize = 0;
    while i < n && is_whitespace(l[i])
        invariant
            n == l@.len(),
            i <= n,
            forall|k: int| 0 <= k < i ==> is_white_space(#[trigger] l@[k]),
        decreases n - i,
    {
        i += 1;
    }
    // i is the first non-blank position (or n)
    let mut j: usize = n;
    while j > i && is_whitespace(l[j - 1])
        invariant
            n == l@.len(),
            i <= j <= n,
            forall|k: int| j <= k < n ==> is_white_space(#[trigger] l@[k]),
        decreases j - i,
    {
        j -= 1;
    }
    let b = j - i == 3 && l[i] == '-' && l[i + 1] == '-' && l[i + 2] == '-';
    proof {
        if b {
            assert(dashes_at(l@, i as int));
        } else if is_separator(l@) {
            let i2 = choose|i2: int| #[trigger] dashes_at(l@, i2);
            // '-' is not white space, so the blanks stop exactly around the dashes
            assert(!is_white_space('-'));
            if i < n {
                assert(!is_white_space(l@[i as int]));
            }
            assert(i == i2);
            if j < n {
                assert(is_white_space(l@[j as int]));
            }
            assert(!is_white_space(l@[i2 + 2]));
            assert(j == i2 + 3);
        }
    }
    b
}


/// Splits `chars` into lines as `str::lines` does.
fn split_lines(chars: &Vec<char>) -> (lines: Vec<Vec<char>>)
    ensures
        lines.deep_view() == text_lines(chars@),
{
    let mut lines: Vec<Vec<char>> = Vec::new();
    let mut cur: Vec<char> = Vec::new();
    let n = chars.len();
    let mut i: usize = 0;
    assert(chars@.take(0) =~= Seq::<char>::empty());
    assert(lines.deep_view() =~= Seq::<Seq<char>>::empty());
    while i < n
        invariant
            n == chars@.len(),
            i <= n,
            (lines.deep_view(), cur@) == lines_state(chars@.take(i as int)),
        decreases n - i,
    {
        let c = chars[i];
        let ghost before = lines.deep_view();
        assert(chars@.take(i + 1).drop_last() =~= chars@.take(i as int));
        assert(chars@.take(i + 1).last() == c);
        if c == '\n' {
            let ghost cur_before = cur@;
            let k = cur.len();
            if k > 0 && cur[k - 1] == '\r' {
                cur.pop();
                assert(cur@ =~= strip_cr(cur_before));
            }
            let mut line: Vec<char> = Vec::new();
            std::mem::swap(&mut line, &mut cur);
            assert(line.deep_view() =~= line@);
            lines.push(line);
            assert(lines.deep_view() =~= before.push(strip_cr(cur_before)));
            assert(cur@ =~= Seq::<char>::empty());
        } else {
            cur.push(c);
            assert(lines.deep_view() =~= before);
        }
        i += 1;
    }
    assert(chars@.take(n as int) =~= chars@);
    if cur.len() > 0 {
        let ghost before = lines.deep_view();
        let ghost cur_before = cur@;
        assert(cur.deep_view() =~= cur@);
        lines.push(cur);
        assert(lines.deep_view() =~= before.push(cur_before));
    }
    lines
}

/// Groups lines into frames at the separator lines.
fn group_frames(lines: &Vec<Vec<char>>) -> (frames: Vec<Vec<String>>)
    ensures
        frames.deep_view() == frames_of(lines.deep_view()),
{
    let ghost ls = lines.deep_view();
    let mut frames: Vec<Vec<String>> = Vec::new();
    let mut cur: Vec<String> = Vec::new();
    let n = lines.len();
    let mut i: usize = 0;
    assert(ls.take(0) =~= Seq::<Seq<char>>::empty());
    assert(frames.deep_view() =~= Seq::<Seq<Seq<char>>>::empty());
    assert(cur.deep_view() =~= Seq::<Seq<char>>::empty());
    while i < n
        invariant
            n == lines@.len(),
            ls == lines.deep_view(),
            i <= n,
            (frames.deep_view(), cur.deep_view()) == frames_state(ls.take(i as int)),
        decreases n - i,
    {
        let line = &lines[i];
        assert(ls.take(i + 1).drop_last() =~= ls.take(i as int));
        assert(ls.take(i + 1).last() == line@);
        let ghost fb = frames.deep_view();
        let ghost cb = cur.deep_view();
        if separator_line(line) {
            if cur.len() > 0 {
                let mut frame: Vec<String> = Vec::new();
                std::mem::swap(&mut frame, &mut cur);
                frames.push(frame);
                assert(frames.deep_view() =~= fb.push(cb));
                assert(cur.deep_view() =~= Seq::<Seq<char>>::empty());
            }
        } else {
            let s = string_from_chars(line);
            cur.push(s);
            assert(cur.deep_view() =~= cb.push(line@));
            assert(frames.deep_view() =~= fb);
        }
        i += 1;
    }
    assert(ls.take(n as int) =~= ls);
    if cur.len() > 0 {
        let ghost fb = frames.deep_view();
        let ghost cb = cur.deep_view();
        frames.push(cur);
        assert(frames.deep_view() =~= fb.push(cb));
    }
    frames
}

/// The frames of the animation file format: frames are blocks of lines separated by
/// lines that read `---`.
pub open spec fn parse_spec(data: Seq<char>) -> Seq<Seq<Seq<char>>> {
    frames_of(text_lines(data))
}

/// An animation of text frames, played in a loop.
pub struct BadApplePlayer {
    frames: Vec<Vec<String>>,
    current: usize,
}

impl BadApplePlayer {
    #[verifier::type_invariant]
    spec fn inv(self) -> bool {
        0 <= self.current < self.frames@.len()
    }

    /// The frames, each a sequence of lines.
    pub closed spec fn frames(&self) -> Seq<Seq<Seq<char>>> {
        self.frames.deep_view()
    }

    /// The index of the frame being shown.
    pub closed spec fn current(&self) -> int {
        self.current as int
    }

    /// Splits the text of an animation file into frames.
    pub fn parse_frames(data: &str) -> (frames: Vec<Vec<String>>)
        ensures
            frames.deep_view() == parse_spec(data@),
    {
        let chars = chars_of(data);
        let lines = split_lines(&chars);
        group_frames(&lines)
    }

    /// A player at the first of `frames`, or `None` when there are no frames.
    pub fn from_frames(frames: Vec<Vec<String>>) -> (p: Option<Self>)
        ensures
            frames@.len() == 0 <==> p is None,
            p matches Some(q) ==> q.frames() == frames.deep_view() && q.current() == 0,
    {
        if frames.len() == 0 {
            None
        } else {
            Some(BadApplePlayer { frames, current: 0 })
        }
    }

    /// A player for the text of an animation file, or `None` when it holds no frame.
    pub fn from_text(data: &str) -> (p: Option<Self>)
        ensures
            parse_spec(data@).len() == 0 <==> p is None,
            p matches Some(q) ==> q.frames() == parse_spec(data@) && q.current() == 0,
    {
        let frames = Self::parse_frames(data);
        Self::from_frames(frames)
    }

    /// Moves to the next frame, going back to the first after the last.
    pub fn advance(&mut self)
        ensures
            0 <= old(self).current() < old(self).frames().len(),
            advance_step(*old(self), *final(self)),
            0 <= final(self).current() < final(self).frames().len(),
    {
        let n = self.frames.len();
        proof {
            use_type_invariant(&*self);
        }
        self.current = (self.current + 1) % n;
    }

    /// The lines of the frame being shown.
    pub fn current_lines(&self) -> (lines: &[String])
        ensures
            lines.deep_view() == self.frames()[self.current()],
            0 <= self.current() < self.frames().len(),
    {
        proof {
            use_type_invariant(self);
        }
        self.frames[self.current].as_slice()
    }
}


/// The lines of `lines` that are not separators.
pub open spec fn content_lines(lines: Seq<Seq<char>>) -> Seq<Seq<char>>
    decreases lines.len(),
{
    if lines.len() == 0 {
        Seq::empty()
    } else if is_separator(lines.last()) {
        content_lines(lines.drop_last())
    } else {
        content_lines(lines.drop_last()).push(lines.last())
    }
}

proof fn lemma_frames_state(lines: Seq<Seq<char>>)
    ensures
        ({
            let (done, cur) = frames_state(lines);
            &&& done.flatten() + cur == content_lines(lines)
            &&& forall|i: int| 0 <= i < done.len() ==> (#[trigger] done[i]).len() > 0
            &&& forall|i: int, j: int|
                0 <= i < done.len() && 0 <= j < done[i].len() ==> !is_separator(#[trigger] done[i][j])
            &&& forall|j: int| 0 <= j < cur.len() ==> !is_separator(#[trigger] cur[j])
        }),
    decreases lines.len(),
{
    if lines.len() == 0 {
        assert(content_lines(lines) =~= Seq::<Seq<char>>::empty());
        assert(Seq::<Seq<Seq<char>>>::empty().flatten() =~= Seq::<Seq<char>>::empty());
    } else {
        let init = lines.drop_last();
        let l = lines.last();
        lemma_frames_state(init);
        let (done, cur) = frames_state(init);
        if is_separator(l) {
            if cur.len() > 0 {
                done.lemma_flatten_push(cur);
                let nd = done.push(cur);
                assert(nd.flatten() + Seq::<Seq<char>>::empty() =~= done.flatten() + cur);
                assert forall|i: int, j: int|
                    0 <= i < nd.len() && 0 <= j < nd[i].len() implies !is_separator(#[trigger] nd[i][j]) by {
                    if i < done.len() {
                        assert(nd[i] == done[i]);
                    } else {
                        assert(nd[i] == cur);
                    }
                }
            }
        } else {
            assert(done.flatten() + cur.push(l) =~= (done.flatten() + cur).push(l));
        }
    }
}

/// Frame parsing loses no content and invents none: the frames, read one after the
/// other, are exactly the lines that are not separators; no frame is empty and no
/// frame holds a separator.
pub proof fn lemma_frames_keep_content(lines: Seq<Seq<char>>)
    ensures
        frames_of(lines).flatten() == content_lines(lines),
        forall|i: int| 0 <= i < frames_of(lines).len() ==> (#[trigger] frames_of(lines)[i]).len() > 0,
        forall|i: int, j: int|
            0 <= i < frames_of(lines).len() && 0 <= j < frames_of(lines)[i].len() ==> !is_separator(
                #[trigger] frames_of(lines)[i][j],
            ),
{
    lemma_frames_state(lines);
    let (done, cur) = frames_state(lines);
    let fs = frames_of(lines);
    if cur.len() > 0 {
        done.lemma_flatten_push(cur);
        assert forall|i: int, j: int|
            0 <= i < fs.len() && 0 <= j < fs[i].len() implies !is_separator(#[trigger] fs[i][j]) by {
            if i < done.len() {
                assert(fs[i] == done[i]);
            } else {
                assert(fs[i] == cur);
            }
        }
    } else {
        assert(done.flatten() + cur =~= done.flatten());
    }
}

/// The frame index after `k` advances from frame `c` of `n`.
pub open spec fn advanced(c: int, n: int, k: nat) -> int
    decreases k,
{
    if k == 0 {
        c
    } else {
        (advanced(c, n, (k - 1) as nat) + 1) % n
    }
}

proof fn lemma_advance_steps(c: int, n: int, k: nat)
    requires
        0 <= c < n,
    ensures
        advanced(c, n, k) == (c + k) % n,
    decreases k,
{
    if k > 0 {
        lemma_advance_steps(c, n, (k - 1) as nat);
        let x = c + k - 1;
        vstd::arithmetic::div_mod::lemma_add_mod_noop(x, 1, n);
        if n > 1 {
            vstd::arithmetic::div_mod::lemma_small_mod(1, n as nat);
        } else {
            vstd::arithmetic::div_mod::lemma_mod_pos_bound(x % n + 1, n);
            vstd::arithmetic::div_mod::lemma_mod_pos_bound(c + k, n);
        }
    } else {
        vstd::arithmetic::div_mod::lemma_small_mod(c as nat, n as nat);
    }
}

/// Advancing moves round the frames in a cycle of exactly `n`: `k` advances from frame
/// `c` of `n` reach frame `(c + k) % n`, after `n` advances the player is back where it
/// started, and after `0 < k < n` advances it is not.
pub proof fn lemma_advance_cycles(c: int, n: int, k: nat)
    requires
        0 <= c < n,
    ensures
        advanced(c, n, k) == (c + k) % n,
        advanced(c, n, n as nat) == c,
        0 < k < n ==> advanced(c, n, k) != c,
{
    lemma_advance_steps(c, n, k);
    if 0 < k < n {
        if c + k < n {
            vstd::arithmetic::div_mod::lemma_small_mod((c + k) as nat, n as nat);
        } else {
            vstd::arithmetic::div_mod::lemma_fundamental_div_mod_converse(c + k, n, 1, c + k - n);
        }
    }
    lemma_advance_steps(c, n, n as nat);
    vstd::arithmetic::div_mod::lemma_mod_add_multiples_vanish(c, n);
    vstd::arithmetic::div_mod::lemma_small_mod(c as nat, n as nat);
}

/// What one call of `advance` does: the frames stay, and the index moves to the next
/// frame, back to the first after the last.
pub open spec fn advance_step(p: BadApplePlayer, q: BadApplePlayer) -> bool {
    &&& q.frames() == p.frames()
    &&& q.current() == (p.current() + 1) % (p.frames().len() as int)
}

proof fn lemma_run_steps(run: Seq<BadApplePlayer>, i: int)
    requires
        0 <= i < run.len(),
        forall|j: int| 0 <= j < run.len() - 1 ==> advance_step(#[trigger] run[j], run[j + 1]),
    ensures
        run[i].frames() == run[0].frames(),
        run[i].current() == advanced(run[0].current(), run[0].frames().len() as int, i as nat),
    decreases i,
{
    if i > 0 {
        lemma_run_steps(run, i - 1);
        assert(advance_step(run[i - 1], run[i]));
    }
}

/// A run of successive calls of `advance` on a player of `n` frames, each as its
/// contract states, keeps the frames; after `k` calls the player shows frame
/// `(c + k) % n`, and it is back at its first frame `c` exactly when `k` is a
/// multiple of `n`, so the frames come round with period `n`.
pub proof fn lemma_advance_calls(run: Seq<BadApplePlayer>)
    requires
        run.len() >= 1,
        0 <= run[0].current() < run[0].frames().len(),
        forall|j: int| 0 <= j < run.len() - 1 ==> advance_step(#[trigger] run[j], run[j + 1]),
    ensures
        run.last().frames() == run[0].frames(),
        run.last().current() == (run[0].current() + run.len() - 1) % (run[0].frames().len() as int),
        (run.last().current() == run[0].current()) <==> ((run.len() - 1) % (run[0].frames().len() as int)
            == 0),
{
    let c = run[0].current();
    let n = run[0].frames().len() as int;
    let k = (run.len() - 1) as nat;
    lemma_run_steps(run, k as int);
    lemma_advance_steps(c, n, k);
    vstd::arithmetic::div_mod::lemma_fundamental_div_mod(k as int, n);
    vstd::arithmetic::div_mod::lemma_mod_pos_bound(k as int, n);
    let q: int = k as int / n;
    let r: int = k as int % n;
    assert(c + k == (c + r) + n * q) by (nonlinear_arith)
        requires
            k == n * q + r,
    ;
    vstd::arithmetic::div_mod::lemma_mod_multiples_vanish(q, c + r, n);
    vstd::arithmetic::mul::lemma_mul_is_commutative(n, q);
    if r == 0 {
        vstd::arithmetic::div_mod::lemma_small_mod(c as nat, n as nat);
    } else if c + r < n {
        vstd::arithmetic::div_mod::lemma_small_mod((c + r) as nat, n as nat);
    } else {
        vstd::arithmetic::div_mod::lemma_fundamental_div_mod_converse(c + r, n, 1, c + r - n);
    }
}

/// Pieces of text put together with a `\n` between each two.
pub open spec fn newline_joined(ls: Seq<Seq<char>>) -> Seq<char>
    decreases ls.len(),
{
    if ls.len() == 0 {
        Seq::empty()
    } else if ls.len() == 1 {
        ls[0]
    } else {
        newline_joined(ls.drop_last()) + seq!['\n'] + ls.last()
    }
}

/// `lines` are the lines of the text `s` cut into the pieces `raw`: the pieces hold no
/// `\n`, put together with `\n` between them (and a final `\n` where `s` ends with
/// one) they give `s` exactly, there is no piece for an empty text, and each line is
/// its piece character for character, less one `\r` at the end of a piece that a
/// `\n` follows.
pub open spec fn cut_into_lines(s: Seq<char>, raw: Seq<Seq<char>>, lines: Seq<Seq<char>>) -> bool {
    let ends_nl = s.len() > 0 && s.last() == '\n';
    &&& raw.len() == lines.len()
    &&& (raw.len() == 0 <==> s.len() == 0)
    &&& forall|i: int, j: int| 0 <= i < raw.len() && 0 <= j < raw[i].len() ==> #[trigger] raw[i][j] != '\n'
    &&& s == newline_joined(raw) + (if ends_nl { seq!['\n'] } else { Seq::empty() })
    &&& forall|i: int|
        0 <= i < raw.len() ==> #[trigger] lines[i] == if (i < raw.len() - 1 || ends_nl) && raw[i].len() > 0
            && raw[i].last() == '\r' {
            raw[i].drop_last()
        } else {
            raw[i]
        }
}

spec fn raw_state(s: Seq<char>) -> (Seq<Seq<char>>, Seq<char>)
    decreases s.len(),
{
    if s.len() == 0 {
        (Seq::empty(), Seq::empty())
    } else {
        let (done, cur) = raw_state(s.drop_last());
        if s.last() == '\n' {
            (done.push(cur), Seq::empty())
        } else {
            (done, cur.push(s.last()))
        }
    }
}

spec fn terminated(d: Seq<Seq<char>>) -> Seq<char>
    decreases d.len(),
{
    if d.len() == 0 {
        Seq::empty()
    } else {
        terminated(d.drop_last()) + d.last() + seq!['\n']
    }
}

proof fn lemma_joined_push(d: Seq<Seq<char>>, x: Seq<char>)
    ensures
        newline_joined(d.push(x)) == terminated(d) + x,
    decreases d.len(),
{
    if d.len() == 0 {
        assert(d.push(x) =~= seq![x]);
        assert(terminated(d) + x =~= x);
    } else {
        let d2 = d.drop_last();
        assert(d2.push(d.last()) =~= d);
        lemma_joined_push(d2, d.last());
        assert(d.push(x).drop_last() =~= d);
        assert(newline_joined(d.push(x)) == newline_joined(d) + seq!['\n'] + x);
        assert(terminated(d) + x =~= terminated(d2) + d.last() + seq!['\n'] + x);
    }
}

proof fn lemma_raw_state(s: Seq<char>)
    ensures
        ({
            let (d, c) = raw_state(s);
            let (ld, lc) = lines_state(s);
            &&& s == terminated(d) + c
            &&& lc == c
            &&& ld.len() == d.len()
            &&& forall|i: int| 0 <= i < d.len() ==> #[trigger] ld[i] == strip_cr(d[i])
            &&& forall|i: int, j: int| 0 <= i < d.len() && 0 <= j < d[i].len() ==> #[trigger] d[i][j] != '\n'
            &&& forall|j: int| 0 <= j < c.len() ==> #[trigger] c[j] != '\n'
        }),
    decreases s.len(),
{
    if s.len() == 0 {
    } else {
        let p = s.drop_last();
        lemma_raw_state(p);
        let (d, c) = raw_state(p);
        let (ld, lc) = lines_state(p);
        assert(p.push(s.last()) =~= s);
        if s.last() == '\n' {
            let nd = d.push(c);
            assert(terminated(nd) == terminated(d) + c + seq!['\n']) by {
                assert(nd.drop_last() =~= d);
            }
            assert(s =~= terminated(nd) + Seq::<char>::empty());
            assert forall|i: int, j: int| 0 <= i < nd.len() && 0 <= j < nd[i].len() implies #[trigger] nd[i][j]
                != '\n' by {
                if i < d.len() {
                    assert(nd[i] == d[i]);
                }
            }
            let nld = ld.push(strip_cr(lc));
            assert forall|i: int| 0 <= i < nd.len() implies #[trigger] nld[i] == strip_cr(nd[i]) by {
                if i < d.len() {
                    assert(nld[i] == ld[i]);
                    assert(nd[i] == d[i]);
                }
            }
        } else {
            assert(s =~= terminated(d) + c.push(s.last()));
        }
    }
}

/// Splitting a text into lines, as `str::lines` does, loses nothing but the line
/// endings: the lines are the text cut at each `\n` (`cut_into_lines`), each kept
/// character for character, leading and inner spaces included.
pub proof fn lemma_lines_split(s: Seq<char>)
    ensures
        exists|raw: Seq<Seq<char>>| #[trigger] cut_into_lines(s, raw, text_lines(s)),
{
    lemma_raw_state(s);
    let (d, c) = raw_state(s);
    let (ld, lc) = lines_state(s);
    let ends_nl = s.len() > 0 && s.last() == '\n';
    if s.len() == 0 {
        assert(cut_into_lines(s, d, text_lines(s)));
    } else if ends_nl {
        let p = s.drop_last();
        lemma_raw_state(p);
        assert(c.len() == 0);
        assert(d.len() > 0);
        let d2 = d.drop_last();
        assert(d2.push(d.last()) =~= d);
        lemma_joined_push(d2, d.last());
        assert(terminated(d) == terminated(d2) + d.last() + seq!['\n']);
        assert(s =~= newline_joined(d) + seq!['\n']);
        assert(text_lines(s) == ld);
        assert(cut_into_lines(s, d, text_lines(s)));
    } else {
        assert(c.len() > 0) by {
            let p = s.drop_last();
            assert(raw_state(s).1 == raw_state(p).1.push(s.last()));
        }
        let raw = d.push(c);
        lemma_joined_push(d, c);
        assert(s =~= newline_joined(raw) + Seq::<char>::empty());
        let tl = text_lines(s);
        assert(tl == ld.push(lc));
        assert forall|i: int, j: int| 0 <= i < raw.len() && 0 <= j < raw[i].len() implies #[trigger] raw[i][j]
            != '\n' by {
            if i < d.len() {
                assert(raw[i] == d[i]);
            }
        }
        assert forall|i: int| 0 <= i < raw.len() implies #[trigger] tl[i] == if (i < raw.len() - 1 || ends_nl)
            && raw[i].len() > 0 && raw[i].last() == '\r' {
            raw[i].drop_last()
        } else {
            raw[i]
        } by {
            if i < d.len() {
                assert(tl[i] == ld[i]);
                assert(raw[i] == d[i]);
            }
        }
        assert(cut_into_lines(s, raw, tl));
    }
}

/// Parsing an animation file keeps every line that is not a separator, character for
/// character and in order: the frames, read one after the other, are exactly those
/// lines of the text as it is cut at each `\n` (`cut_into_lines`).
pub proof fn lemma_parse_keeps_lines(s: Seq<char>)
    ensures
        exists|raw: Seq<Seq<char>>| #[trigger] cut_into_lines(s, raw, text_lines(s)),
        parse_spec(s).flatten() == content_lines(text_lines(s)),
{
    lemma_lines_split(s);
    lemma_frames_keep_content(text_lines(s));
}

} // verus!
