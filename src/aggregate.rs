use crate::path::DecodeError;
use vstd::prelude::*;

verus! {

/// The successes among `s`, in order.
pub open spec fn oks<T, E>(s: Seq<Result<T, E>>) -> Seq<T>
    decreases s.len(),
{
    if s.len() == 0 {
        Seq::empty()
    } else {
        match s.last() {
            Ok(t) => oks(s.drop_last()).push(t),
            Err(_) => oks(s.drop_last()),
        }
    }
}

/// The failures among `s`, in order.
pub open spec fn errs<T, E>(s: Seq<Result<T, E>>) -> Seq<E>
    decreases s.len(),
{
    if s.len() == 0 {
        Seq::empty()
    } else {
        match s.last() {
            Ok(_) => errs(s.drop_last()),
            Err(e) => errs(s.drop_last()).push(e),
        }
    }
}

/// Several failures reported together, in the order in which they came.
#[derive(Debug)]
pub struct AggregateError<E> {
    pub errors: Vec<E>,
}

/// What collecting fallible results fails with: the one failure itself, or
/// all of them when there are two or more.
#[derive(Debug)]
pub enum CollectError<E> {
    Single(E),
    Many(AggregateError<E>),
}

/// Whether `c` is what collecting the failures `es` gives: nothing when
/// there is none, the failure itself when there is one, all of them in order
/// when there are more.
pub open spec fn collects<E>(c: CollectError<E>, es: Seq<E>) -> bool {
    match c {
        CollectError::Single(e) => es.len() == 1 && e == es[0],
        CollectError::Many(a) => es.len() >= 2 && a.errors@ == es,
    }
}

impl<E> AggregateError<E> {
    /// All the successes, in order, if nothing failed; otherwise the failure,
    /// or all the failures when more than one item failed.
    pub fn from_results<T>(results: Vec<Result<T, E>>) -> (r: Result<Vec<T>, CollectError<E>>)
        ensures
            errs(results@).len() == 0 <==> r is Ok,
            r matches Ok(v) ==> v@ == oks(results@),
            r matches Err(c) ==> collects(c, errs(results@)),
    {
        let ghost all = results@;
        let n = results.len();
        let mut rest = results;
        let mut good: Vec<T> = Vec::new();
        let mut bad: Vec<E> = Vec::new();
        let mut k: usize = 0;
        while rest.len() > 0
            invariant
                k + rest@.len() == all.len(),
                all.len() == n,
                rest@ == all.skip(k as int),
                good@ == oks(all.take(k as int)),
                bad@ == errs(all.take(k as int)),
            decreases rest@.len(),
        {
            let item = rest.remove(0);
            proof {
                assert(all.take(k + 1).drop_last() =~= all.take(k as int));
                assert(all.take(k + 1).last() == item);
                assert(rest@ =~= all.skip(k + 1));
            }
            match item {
                Ok(t) => good.push(t),
                Err(e) => bad.push(e),
            }
            k = k + 1;
        }
        assert(all.take(k as int) =~= all);
        if bad.len() == 0 {
            Ok(good)
        } else if bad.len() == 1 {
            let e = bad.pop().unwrap();
            Err(CollectError::Single(e))
        } else {
            Err(CollectError::Many(AggregateError { errors: bad }))
        }
    }

    /// The first failure, which the others follow.
    pub fn cause(&self) -> (r: Option<&E>)
        ensures
            self.errors@.len() == 0 ==> r is None,
            self.errors@.len() > 0 ==> r == Some(&self.errors@[0]),
    {
        if self.errors.len() == 0 {
            None
        } else {
            Some(&self.errors[0])
        }
    }
}

/// The lines joined by line breaks, with none after the last.
pub open spec fn lines_text(lines: Seq<Seq<char>>) -> Seq<char>
    decreases lines.len(),
{
    if lines.len() == 0 {
        Seq::empty()
    } else if lines.len() == 1 {
        lines[0]
    } else {
        lines_text(lines.drop_last()) + seq!['\n'] + lines.last()
    }
}

/// Whether `part` stands somewhere in `text`.
pub open spec fn contains_text(text: Seq<char>, part: Seq<char>) -> bool {
    exists|k: int| 0 <= k && k + part.len() <= text.len() && #[trigger] text.subrange(k, k + part.len()) == part
}

/// Joins the lines with line breaks between them.
pub fn render_lines(lines: &Vec<String>) -> (r: String)
    ensures
        r@ == lines_text(lines@.map_values(|l: String| l@)),
{
    let ghost v = lines@.map_values(|l: String| l@);
    let mut r = String::new();
    let mut i: usize = 0;
    proof {
        reveal_strlit("\n");
    }
    while i < lines.len()
        invariant
            i <= lines.len(),
            v == lines@.map_values(|l: String| l@),
            r@ == lines_text(v.take(i as int)),
            "\n"@ == seq!['\n'],
        decreases lines.len() - i,
    {
        assert(v.take(i + 1).drop_last() =~= v.take(i as int));
        assert(v.take(i + 1).last() == lines@[i as int]@);
        if i > 0 {
            r.append("\n");
        } else {
            assert(v.take(1)[0] == lines@[0]@);
        }
        r.append(lines[i].as_str());
        i = i + 1;
    }
    assert(v.take(i as int) =~= v);
    r
}

/// Every line stands in the text of the lines.
pub proof fn lemma_lines_text_contains(lines: Seq<Seq<char>>, i: int)
    requires
        0 <= i < lines.len(),
    ensures
        contains_text(lines_text(lines), lines[i]),
    decreases lines.len(),
{
    let t = lines_text(lines);
    if lines.len() == 1 {
        assert(t.subrange(0int, 0int + lines[i].len()) =~= lines[i]);
    } else {
        let front = lines_text(lines.drop_last());
        if i == lines.len() - 1 {
            let k: int = front.len() as int + 1;
            assert(t.subrange(k, k + lines[i].len()) =~= lines[i]);
        } else {
            lemma_lines_text_contains(lines.drop_last(), i);
            assert(lines.drop_last()[i] == lines[i]);
            let k = choose|k: int|
                0 <= k && k + lines[i].len() <= front.len() && #[trigger] front.subrange(
                    k,
                    k + lines[i].len(),
                ) == lines[i];
            assert(t.subrange(k, k + lines[i].len()) =~= front.subrange(k, k + lines[i].len()));
        }
    }
}

/// A failure that describes itself in one line of text.
pub trait Describe {
    spec fn description(&self) -> Seq<char>;

    fn describe(&self) -> (r: String)
        ensures
            r@ == self.description(),
    ;
}

impl Describe for DecodeError {
    open spec fn description(&self) -> Seq<char> {
        self.message_spec()
    }

    fn describe(&self) -> (r: String) {
        self.message()
    }
}

impl Describe for String {
    open spec fn description(&self) -> Seq<char> {
        self@
    }

    fn describe(&self) -> (r: String) {
        self.clone()
    }
}

impl<E: Describe> AggregateError<E> {
    /// The description of each failure, in order, joined by line breaks.
    pub fn render(&self) -> (r: String)
        ensures
            r@ == lines_text(self.errors@.map_values(|e: E| e.description())),
    {
        let ghost m = self.errors@.map_values(|e: E| e.description());
        let mut lines: Vec<String> = Vec::new();
        let mut i: usize = 0;
        while i < self.errors.len()
            invariant
                i <= self.errors.len(),
                m == self.errors@.map_values(|e: E| e.description()),
                lines@.map_values(|l: String| l@) == m.take(i as int),
            decreases self.errors.len() - i,
        {
            let line = self.errors[i].describe();
            let ghost before = lines@;
            let ghost lv = line@;
            lines.push(line);
            assert(lines@.map_values(|l: String| l@) =~= before.map_values(|l: String| l@).push(
                lv,
            ));
            assert(m.take(i + 1) =~= m.take(i as int).push(m[i as int]));
            i = i + 1;
        }
        assert(m.take(i as int) =~= m);
        render_lines(&lines)
    }
}

impl<E: Describe> CollectError<E> {
    /// The text of the failure: the description of the one failure, or of
    /// each failure, joined by line breaks.
    pub fn message(&self) -> (r: String)
        ensures
            self matches CollectError::Single(e) ==> r@ == e.description(),
            self matches CollectError::Many(a) ==> r@ == lines_text(
                a.errors@.map_values(|e: E| e.description()),
            ),
    {
        match self {
            CollectError::Single(e) => e.describe(),
            CollectError::Many(a) => a.render(),
        }
    }
}

/// The text of a composite failure holds the description of each failure
/// in it.
pub proof fn lemma_render_contains_each<E: Describe>(a: AggregateError<E>, i: int)
    requires
        0 <= i < a.errors@.len(),
    ensures
        contains_text(
            lines_text(a.errors@.map_values(|e: E| e.description())),
            a.errors@[i].description(),
        ),
{
    let m = a.errors@.map_values(|e: E| e.description());
    lemma_lines_text_contains(m, i);
}

} // verus!
