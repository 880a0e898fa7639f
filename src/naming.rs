use vstd::prelude::*;

verus! {

pub open spec fn digit_char(d: nat) -> char {
    if d == 0 {
        '0'
    } else if d == 1 {
        '1'
    } else if d == 2 {
        '2'
    } else if d == 3 {
        '3'
    } else if d == 4 {
        '4'
    } else if d == 5 {
        '5'
    } else if d == 6 {
        '6'
    } else if d == 7 {
        '7'
    } else if d == 8 {
        '8'
    } else {
        '9'
    }
}

/// The decimal digits of `n`, without leading zeros.
pub open spec fn decimal(n: nat) -> Seq<char>
    decreases n,
{
    if n < 10 {
        seq![digit_char(n)]
    } else {
        decimal(n / 10).push(digit_char(n % 10))
    }
}

/// Position of the last `c` in `s`, if any.
pub open spec fn last_index_of(s: Seq<char>, c: char) -> Option<int>
    decreases s.len(),
{
    if s.len() == 0 {
        None
    } else if s.last() == c {
        Some(s.len() - 1)
    } else {
        last_index_of(s.drop_last(), c)
    }
}

/// `dir/name`.
pub open spec fn join(dir: Seq<char>, name: Seq<char>) -> Seq<char> {
    dir + seq!['/'] + name
}

/// The name given to the `n`-th repeat of a file called `name`: `-n` goes
/// before the final extension where there is one, else at the end.
pub open spec fn numbered_name(name: Seq<char>, n: nat) -> Seq<char> {
    match last_index_of(name, '.') {
        Some(i) => name.subrange(0, i) + seq!['-'] + decimal(n) + name.subrange(i, name.len() as int),
        None => name + seq!['-'] + decimal(n),
    }
}

/// Relies on `String::push`: appends one character.
#[verifier::external_body]
fn push_char(s: &mut String, c: char)
    ensures
        final(s)@ == old(s)@.push(c),
{
    s.push(c);
}

/// Relies on `str::rsplit_once`: splits around the last `.`, or gives
/// `None` where there is none.
#[verifier::external_body]
fn split_last_dot(s: &str) -> (r: Option<(&str, &str)>)
    ensures
        r is None ==> !s@.contains('.'),
        r matches Some((a, b)) ==> s@ == a@ + seq!['.'] + b@ && !b@.contains('.'),
{
    s.rsplit_once('.')
}

fn digit(d: u64) -> (r: char)
    requires
        d < 10,
    ensures
        r == digit_char(d as nat),
{
    if d == 0 {
        '0'
    } else if d == 1 {
        '1'
    } else if d == 2 {
        '2'
    } else if d == 3 {
        '3'
    } else if d == 4 {
        '4'
    } else if d == 5 {
        '5'
    } else if d == 6 {
        '6'
    } else if d == 7 {
        '7'
    } else if d == 8 {
        '8'
    } else {
        '9'
    }
}

/// Appends the decimal digits of `n` to `s`.
pub fn push_decimal(s: &mut String, n: u64)
    ensures
        final(s)@ == old(s)@ + decimal(n as nat),
    decreases n,
{
    if n >= 10 {
        push_decimal(s, n / 10);
    }
    push_char(s, digit(n % 10));
    assert(final(s)@ =~= old(s)@ + decimal(n as nat));
}

/// `dir/name` as a string.
pub fn join_path(dir: &str, name: &str) -> (r: String)
    ensures
        r@ == join(dir@, name@),
{
    let mut r = String::from_str(dir);
    push_char(&mut r, '/');
    r.append(name);
    r
}

proof fn lemma_no_index_when_absent(s: Seq<char>, c: char)
    requires
        !s.contains(c),
    ensures
        last_index_of(s, c) is None,
    decreases s.len(),
{
    if s.len() > 0 {
        assert(s.last() == s[s.len() - 1]);
        assert forall|k: int| 0 <= k < s.drop_last().len() implies s.drop_last()[k] != c by {
            assert(s.drop_last()[k] == s[k]);
        }
        lemma_no_index_when_absent(s.drop_last(), c);
    }
}

proof fn lemma_index_of_last(a: Seq<char>, c: char, b: Seq<char>)
    requires
        !b.contains(c),
    ensures
        last_index_of(a + seq![c] + b, c) == Some(a.len() as int),
    decreases b.len(),
{
    let s = a + seq![c] + b;
    if b.len() == 0 {
        assert(s.last() == c);
    } else {
        assert(s.last() == b.last());
        assert(b.contains(b.last()));
        assert(s.drop_last() =~= a + seq![c] + b.drop_last());
        assert forall|k: int| 0 <= k < b.drop_last().len() implies b.drop_last()[k] != c by {
            assert(b.drop_last()[k] == b[k]);
        }
        lemma_index_of_last(a, c, b.drop_last());
    }
}

/// A repeated name keeps its extension: `-n` goes between the part before
/// the last `.` and the extension; a name without `.` gets `-n` at its end.
pub proof fn lemma_numbered_keeps_extension(stem: Seq<char>, ext: Seq<char>, plain: Seq<char>, n: nat)
    requires
        !ext.contains('.'),
        !plain.contains('.'),
    ensures
        numbered_name(stem + seq!['.'] + ext, n) == stem + seq!['-'] + decimal(n) + seq!['.'] + ext,
        numbered_name(plain, n) == plain + seq!['-'] + decimal(n),
{
    let name = stem + seq!['.'] + ext;
    lemma_index_of_last(stem, '.', ext);
    lemma_no_index_when_absent(plain, '.');
    assert(name.subrange(0, stem.len() as int) =~= stem);
    assert(name.subrange(stem.len() as int, name.len() as int) =~= seq!['.'] + ext);
    assert(stem + seq!['-'] + decimal(n) + (seq!['.'] + ext) =~= stem + seq!['-'] + decimal(n)
        + seq!['.'] + ext);
}

/// The name of the `n`-th repeat of a file called `name`.
pub fn numbered(name: &str, n: u64) -> (r: String)
    ensures
        r@ == numbered_name(name@, n as nat),
{
    match split_last_dot(name) {
        Some((stem, ext)) => {
            proof {
                lemma_index_of_last(stem@, '.', ext@);
                assert(name@.subrange(0, stem@.len() as int) =~= stem@);
                assert(name@.subrange(stem@.len() as int, name@.len() as int) =~= seq!['.'] + ext@);
            }
            let mut r = String::from_str(stem);
            push_char(&mut r, '-');
            push_decimal(&mut r, n);
            push_char(&mut r, '.');
            r.append(ext);
            proof {
                assert(r@ =~= numbered_name(name@, n as nat));
            }
            r
        },
        None => {
            proof {
                lemma_no_index_when_absent(name@, '.');
            }
            let mut r = String::from_str(name);
            push_char(&mut r, '-');
            push_decimal(&mut r, n);
            r
        },
    }
}

} // verus!
