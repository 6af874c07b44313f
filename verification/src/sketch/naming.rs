//! Names of output files.
//!
//! Every save writes a new file `<name>-<N>.svg`, where `N` is one more than
//! the largest number that a file of that shape already carries.

use vstd::prelude::*;
use vstd::string::*;
use crate::sketch::text::{
    all_digits, chars_of, digit_value, digits, lemma_value_of_digits, push_digits, value,
};

verus! {

/// The ending of every output file.
pub open spec fn suffix() -> Seq<char> {
    seq!['.', 's', 'v', 'g']
}

/// The name of output number `n` of the canvas `name`.
pub open spec fn file_name(name: Seq<char>, n: nat) -> Seq<char> {
    name + seq!['-'] + digits(n) + suffix()
}

/// The part of `file` between the canvas name with its hyphen and the
/// ending, where `file` is long enough to have one.
pub open spec fn middle(name: Seq<char>, file: Seq<char>) -> Seq<char> {
    file.subrange(name.len() as int + 1, file.len() - 4)
}

/// Whether `file` is an output of the canvas `name`: the name, a hyphen, one
/// decimal digit or more, and the ending, with nothing else.
pub open spec fn is_output(name: Seq<char>, file: Seq<char>) -> bool {
    &&& file.len() >= name.len() + 6
    &&& file.subrange(0, name.len() as int) == name
    &&& file[name.len() as int] == '-'
    &&& file.subrange(file.len() - 4, file.len() as int) == suffix()
    &&& all_digits(middle(name, file))
}

/// The number that `file` carries as an output of the canvas `name`; 0 for
/// a file that is no such output.
pub open spec fn index_of(name: Seq<char>, file: Seq<char>) -> nat {
    if is_output(name, file) {
        value(middle(name, file))
    } else {
        0
    }
}

/// The largest number that any of `files` carries; 0 where none is an
/// output of the canvas.
pub open spec fn max_index(name: Seq<char>, files: Seq<Seq<char>>) -> nat
    decreases files.len(),
{
    if files.len() == 0 {
        0
    } else {
        let rest = max_index(name, files.drop_last());
        let last = index_of(name, files.last());
        if last > rest {
            last
        } else {
            rest
        }
    }
}

/// The views of `files`, in order.
pub open spec fn names_of(files: Seq<String>) -> Seq<Seq<char>> {
    files.map_values(|f: String| f@)
}

/// The name of output `n` is an output of the canvas, and carries `n`.
pub proof fn lemma_file_name_index(name: Seq<char>, n: nat)
    ensures
        is_output(name, file_name(name, n)),
        index_of(name, file_name(name, n)) == n,
{
    lemma_value_of_digits(n);
    let f = file_name(name, n);
    assert(f.subrange(0, name.len() as int) =~= name);
    assert(f.subrange(f.len() - 4, f.len() as int) =~= suffix());
    assert(middle(name, f) =~= digits(n));
}

/// No file carries a number above the largest.
pub proof fn lemma_max_index_bounds(name: Seq<char>, files: Seq<Seq<char>>, i: int)
    requires
        0 <= i < files.len(),
    ensures
        index_of(name, files[i]) <= max_index(name, files),
    decreases files.len(),
{
    if i < files.len() - 1 {
        lemma_max_index_bounds(name, files.drop_last(), i);
    }
}

/// The next name is free: no file in `files` has the name of the output
/// that follows the largest number among them.
pub proof fn lemma_next_name_is_free(name: Seq<char>, files: Seq<Seq<char>>, i: int)
    requires
        0 <= i < files.len(),
    ensures
        files[i] != file_name(name, max_index(name, files) + 1),
{
    lemma_max_index_bounds(name, files, i);
    lemma_file_name_index(name, max_index(name, files) + 1);
}

/// `n`, or the largest number of the machine where `n` is larger still.
pub open spec fn capped(n: nat) -> nat {
    if n < u64::MAX {
        n
    } else {
        u64::MAX as nat
    }
}

/// The decimal digit that `c` shows, if it shows one.
fn digit_of(c: char) -> (d: Option<u8>)
    ensures
        match d {
            Some(x) => digit_value(c) == Some(x as int),
            None => digit_value(c) is None,
        },
{
    if c == '0' {
        Some(0)
    } else if c == '1' {
        Some(1)
    } else if c == '2' {
        Some(2)
    } else if c == '3' {
        Some(3)
    } else if c == '4' {
        Some(4)
    } else if c == '5' {
        Some(5)
    } else if c == '6' {
        Some(6)
    } else if c == '7' {
        Some(7)
    } else if c == '8' {
        Some(8)
    } else if c == '9' {
        Some(9)
    } else {
        None
    }
}

/// Whether `file` begins with `name` and a hyphen and ends in `.svg`, with
/// room for a digit between them.
fn has_frame(name: &Vec<char>, file: &Vec<char>) -> (b: bool)
    ensures
        b == {
            &&& file@.len() >= name@.len() + 6
            &&& file@.subrange(0, name@.len() as int) == name@
            &&& file@[name@.len() as int] == '-'
            &&& file@.subrange(file@.len() - 4, file@.len() as int) == suffix()
        },
{
    let n = name.len();
    let len = file.len();
    if len < 6 || len - 6 < n {
        return false;
    }
    let mut i: usize = 0;
    while i < n
        invariant
            i <= n,
            n == name@.len(),
            n + 6 <= file@.len(),
            forall|j: int| 0 <= j < i ==> file@[j] == name@[j],
        decreases n - i,
    {
        if file[i] != name[i] {
            assert(file@.subrange(0, n as int)[i as int] != name@[i as int]);
            return false;
        }
        i = i + 1;
    }
    assert(file@.subrange(0, n as int) =~= name@);
    let ghost ending = file@.subrange(len - 4, len as int);
    assert(ending[0] == file@[len - 4] && ending[1] == file@[len - 3] && ending[2] == file@[len
        - 2] && ending[3] == file@[len - 1]);
    if file[n] == '-' && file[len - 4] == '.' && file[len - 3] == 's' && file[len - 2] == 'v'
        && file[len - 1] == 'g' {
        assert(ending =~= suffix());
        true
    } else {
        false
    }
}

/// The number that `file` carries as an output of the canvas `name`, as far
/// as the machine can count.
fn index_of_chars(name: &Vec<char>, file: &Vec<char>) -> (n: u64)
    ensures
        n == capped(index_of(name@, file@)),
{
    if !has_frame(name, file) {
        return 0;
    }
    let end: usize = file.len() - 4;
    let start: usize = name.len() + 1;
    let ghost mid = middle(name@, file@);
    let mut acc: u64 = 0;
    let mut over: bool = false;
    let mut k: usize = start;
    assert(mid.take(0) =~= Seq::<char>::empty());
    while k < end
        invariant
            start <= k <= end,
            end == file@.len() - 4,
            start == name@.len() + 1,
            mid == file@.subrange(start as int, end as int),
            all_digits(mid.take(k - start)),
            over ==> value(mid.take(k - start)) >= u64::MAX,
            !over ==> acc == value(mid.take(k - start)),
        decreases end - k,
    {
        let ghost seen = mid.take(k - start);
        let ghost next = mid.take(k + 1 - start);
        assert(next.drop_last() =~= seen);
        assert(next.last() == file@[k as int]);
        match digit_of(file[k]) {
            None => {
                assert(digit_value(mid[k - start]) is None);
                return 0;
            },
            Some(d) => {
                assert forall|i: int| 0 <= i < next.len() implies digit_value(
                    #[trigger] next[i],
                ) is Some by {
                    if i < seen.len() {
                        assert(next[i] == seen[i]);
                    }
                }
                if !over {
                    if acc > (u64::MAX - d as u64) / 10 {
                        over = true;
                    } else {
                        acc = acc * 10 + d as u64;
                    }
                }
            },
        }
        k = k + 1;
    }
    assert(mid.take(end - start) =~= mid);
    if over {
        u64::MAX
    } else {
        acc
    }
}

/// Adding a file at the end raises the largest number to that of the file,
/// where it is larger.
proof fn lemma_max_index_push(name: Seq<char>, files: Seq<Seq<char>>, file: Seq<char>)
    ensures
        max_index(name, files.push(file)) == if index_of(name, file) > max_index(name, files) {
            index_of(name, file)
        } else {
            max_index(name, files)
        },
{
    assert(files.push(file).drop_last() =~= files);
}

/// The name for the next output of the canvas `name`, given the names of the
/// files that stand beside it: `<name>-<N>.svg` with `N` one more than the
/// largest number among the outputs in `existing`, and 1 where there is
/// none. Files of any other shape are passed over. `None` where the largest
/// number is the last one that the machine can count.
pub fn next_free_name(name: &str, existing: &[String]) -> (r: Option<String>)
    ensures
        match r {
            Some(s) => max_index(name@, names_of(existing@)) < u64::MAX && s@ == file_name(
                name@,
                max_index(name@, names_of(existing@)) + 1,
            ),
            None => max_index(name@, names_of(existing@)) >= u64::MAX,
        },
{
    let name_chars = chars_of(name);
    let mut best: u64 = 0;
    let mut i: usize = 0;
    assert(names_of(existing@).take(0) =~= Seq::<Seq<char>>::empty());
    while i < existing.len()
        invariant
            i <= existing.len(),
            name_chars@ == name@,
            best == capped(max_index(name@, names_of(existing@).take(i as int))),
        decreases existing.len() - i,
    {
        let file_chars = chars_of(existing[i].as_str());
        let n = index_of_chars(&name_chars, &file_chars);
        proof {
            let seen = names_of(existing@).take(i as int);
            assert(names_of(existing@).take(i + 1) =~= seen.push(existing@[i as int]@));
            lemma_max_index_push(name@, seen, existing@[i as int]@);
        }
        if n > best {
            best = n;
        }
        i = i + 1;
    }
    assert(names_of(existing@).take(i as int) =~= names_of(existing@));
    if best == u64::MAX {
        return None;
    }
    let mut out = name.to_owned();
    proof {
        reveal_strlit("-");
        reveal_strlit(".svg");
    }
    out.append("-");
    push_digits(&mut out, best + 1);
    out.append(".svg");
    assert(".svg"@ =~= suffix());
    assert(out@ =~= file_name(name@, (best + 1) as nat));
    Some(out)
}

} // verus!
