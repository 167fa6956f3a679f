//! The scheduler's rules: reading a command's execution time from a message
//! body, naming and filling the files that hold saved commands, finding the
//! saved commands that are due, and keeping the saved-command folder small.
use vstd::prelude::*;
use crate::text::{append_decimal, decimal, parse_u64, parse_unsigned, lemma_parse_decimal, lemma_decimal_digits, is_digit, str_eq};

verus! {

/// The states that a scheduled command goes through.
#[derive(Clone, Copy, PartialEq, Eq, Structural, Debug)]
pub enum MessageState {
    New,
    Suspended,
    Waiting,
    Running,
    Done,
}

/// A scheduled command.
pub struct Message {
    pub time: Result<u64, String>,
    pub state: MessageState,
    pub id: u32,
    pub command: String,
}

impl Clone for Message {
    fn clone(&self) -> (r: Message)
        ensures
            r == *self,
    {
        let time = match &self.time {
            Ok(t) => Ok(*t),
            Err(e) => Err(e.clone()),
        };
        Message { time, state: self.state, id: self.id, command: self.command.clone() }
    }
}

/// The weight of byte `i` in a little-endian number.
pub open spec fn byte_weight(i: int) -> int
    decreases i,
{
    if i <= 0 { 1 } else { 256 * byte_weight(i - 1) }
}

/// The little-endian value of the first `k` bytes of `s`.
pub open spec fn le_value(s: Seq<u8>, k: int) -> int
    decreases k,
{
    if k <= 0 { 0 } else { le_value(s, k - 1) + s[k - 1] * byte_weight(k - 1) }
}

proof fn lemma_shift_step(b: u8, i: u64, t: u64)
    requires
        i < 6,
        t < (1u64 << (i * 8)),
    ensures
        ((b as u64) << (i * 8)) == (b as u64) * (1u64 << (i * 8)),
        t | ((b as u64) << (i * 8)) == t + ((b as u64) << (i * 8)),
        t + ((b as u64) << (i * 8)) < (1u64 << ((i + 1) * 8)),
{
    assert(((b as u64) << (i * 8)) == (b as u64) * (1u64 << (i * 8))) by (bit_vector)
        requires i < 6;
    assert(t | ((b as u64) << (i * 8)) == t + ((b as u64) << (i * 8))) by (bit_vector)
        requires i < 6, t < (1u64 << (i * 8));
    assert(t + ((b as u64) << (i * 8)) < (1u64 << ((i + 1) * 8))) by (bit_vector)
        requires i < 6, t < (1u64 << (i * 8));
}

proof fn lemma_weight(i: u64)
    requires
        i < 6,
    ensures
        (1u64 << (i * 8)) == byte_weight(i as int),
{
    reveal_with_fuel(byte_weight, 6);
    if i == 0 {
        assert((1u64 << (0u64 * 8)) == 1) by (bit_vector);
    } else if i == 1 {
        assert((1u64 << (1u64 * 8)) == 0x100) by (bit_vector);
    } else if i == 2 {
        assert((1u64 << (2u64 * 8)) == 0x10000) by (bit_vector);
    } else if i == 3 {
        assert((1u64 << (3u64 * 8)) == 0x1000000) by (bit_vector);
    } else if i == 4 {
        assert((1u64 << (4u64 * 8)) == 0x100000000) by (bit_vector);
    } else {
        assert((1u64 << (5u64 * 8)) == 0x10000000000) by (bit_vector);
    }
}

/// The little-endian value of six bytes, written out: byte `i` counts
/// `256` to the power `i` times.
pub proof fn lemma_le_value_six_bytes(s: Seq<u8>)
    requires
        s.len() >= 6,
    ensures
        le_value(s, 6) == s[0] as int + s[1] * 0x100 + s[2] * 0x10000 + s[3] * 0x1000000
            + s[4] * 0x100000000 + s[5] * 0x10000000000,
        le_value(s, 6) % 0x100 == s[0],
        le_value(s, 6) / 0x10000000000 == s[5],
{
    assert(byte_weight(0) == 1);
    assert(byte_weight(1) == 0x100);
    assert(byte_weight(2) == 0x10000);
    assert(byte_weight(3) == 0x1000000);
    assert(byte_weight(4) == 0x100000000);
    assert(byte_weight(5) == 0x10000000000);
    assert(le_value(s, 0) == 0);
    assert(le_value(s, 1) == s[0] as int);
    assert(le_value(s, 2) == s[0] as int + s[1] * 0x100);
    assert(le_value(s, 3) == s[0] as int + s[1] * 0x100 + s[2] * 0x10000);
    assert(le_value(s, 4) == s[0] as int + s[1] * 0x100 + s[2] * 0x10000 + s[3] * 0x1000000);
    assert(le_value(s, 5) == s[0] as int + s[1] * 0x100 + s[2] * 0x10000 + s[3] * 0x1000000
        + s[4] * 0x100000000);
    let v = le_value(s, 6);
    let rest = s[1] * 0x1 + s[2] * 0x100 + s[3] * 0x10000 + s[4] * 0x1000000 + s[5] * 0x100000000;
    assert(v == s[0] as int + s[1] * 0x100 + s[2] * 0x10000 + s[3] * 0x1000000 + s[4] * 0x100000000
        + s[5] * 0x10000000000);
    assert(v == s[0] as int + rest * 0x100) by (nonlinear_arith)
        requires
            v == s[0] as int + s[1] * 0x100 + s[2] * 0x10000 + s[3] * 0x1000000 + s[4] * 0x100000000
                + s[5] * 0x10000000000,
            rest == s[1] * 0x1 + s[2] * 0x100 + s[3] * 0x10000 + s[4] * 0x1000000 + s[5] * 0x100000000,
    ;
    assert(v % 0x100 == s[0]) by (nonlinear_arith)
        requires v == s[0] as int + rest * 0x100, 0 <= s[0] < 0x100, rest >= 0;
    let low = s[0] as int + s[1] * 0x100 + s[2] * 0x10000 + s[3] * 0x1000000 + s[4] * 0x100000000;
    assert(0 <= low < 0x10000000000);
    assert(v / 0x10000000000 == s[5]) by (nonlinear_arith)
        requires v == low + s[5] * 0x10000000000, 0 <= low < 0x10000000000;
}

/// The execution time carried by a message body: its first six bytes, read
/// as a little-endian number.
pub fn get_time(msg_body: Vec<u8>) -> (r: u64)
    requires
        msg_body@.len() >= 6,
    ensures
        r == le_value(msg_body@, 6),
        r == msg_body@[0] as int + msg_body@[1] * 0x100 + msg_body@[2] * 0x10000 + msg_body@[3] * 0x1000000
            + msg_body@[4] * 0x100000000 + msg_body@[5] * 0x10000000000,
{
    let mut time: u64 = 0;
    let mut i: u64 = 0;
    assert(0u64 < (1u64 << (0u64 * 8))) by (bit_vector);
    while i < 6
        invariant
            i <= 6,
            msg_body@.len() >= 6,
            time == le_value(msg_body@, i as int),
            time < (1u64 << (i * 8)) || i == 6,
        decreases 6 - i,
    {
        let byte = msg_body[i as usize];
        proof {
            lemma_shift_step(byte, i, time);
            lemma_weight(i);
        }
        time = time | ((byte as u64) << (i * 8));
        i = i + 1;
    }
    proof {
        lemma_le_value_six_bytes(msg_body@);
    }
    time
}

/// The largest size, in bytes, of the saved-command folder before its oldest
/// file is removed.
pub const MAX_SAVED_MESSAGES_BYTES: u64 = 2048;

/// The name of the file that holds the command due at `time`.
pub fn saved_message_file_name(time: u64) -> (r: String)
    ensures
        r@ == decimal(time as nat) + ".txt"@,
{
    let mut s = String::new();
    append_decimal(&mut s, time);
    s.append(".txt");
    s
}

/// The content of the file for the command `(time, command)`: the time on the
/// first line, the command on the second.
pub fn saved_message_contents(input_tuple: &(u64, u8)) -> (r: String)
    ensures
        r@ == decimal(input_tuple.0 as nat) + "\n"@ + decimal(input_tuple.1 as nat) + "\n"@,
{
    let mut s = String::new();
    append_decimal(&mut s, input_tuple.0);
    s.append("\n");
    append_decimal(&mut s, input_tuple.1 as u64);
    s.append("\n");
    s
}

/// `s` ends with `.txt`.
pub open spec fn ends_with_txt(s: Seq<char>) -> bool {
    s.len() >= 4 && s.subrange(s.len() - 4, s.len() as int) == ".txt"@
}

/// `s` with every trailing `.txt` removed.
pub open spec fn trim_txt(s: Seq<char>) -> Seq<char>
    decreases s.len(),
{
    if ends_with_txt(s) { trim_txt(s.take(s.len() - 4)) } else { s }
}

/// The time of a saved command whose file is named `name`, if that command is
/// due at `now`: the name ends with `.txt` and, without its trailing `.txt`s,
/// is a decimal time no later than `now`.
pub open spec fn due_time_of(name: Seq<char>, now: u64) -> Option<u64> {
    if ends_with_txt(name) {
        match parse_unsigned(trim_txt(name), u64::MAX as nat) {
            Some(t) => if t <= now { Some(t as u64) } else { None },
            None => None,
        }
    } else {
        None
    }
}

fn ends_with_txt_at(s: &str, end: usize) -> (r: bool)
    requires
        end <= s@.len(),
    ensures
        r == ends_with_txt(s@.take(end as int)),
{
    proof {
        reveal_strlit(".txt");
    }
    let ghost t = s@.take(end as int);
    if end < 4 {
        return false;
    }
    let r = s.get_char(end - 4) == '.' && s.get_char(end - 3) == 't' && s.get_char(end - 2) == 'x'
        && s.get_char(end - 1) == 't';
    proof {
        let tail = t.subrange(t.len() - 4, t.len() as int);
        if r {
            assert(tail =~= ".txt"@);
        } else {
            assert(tail != ".txt"@) by {
                if tail == ".txt"@ {
                    assert(tail[0] == '.' && tail[1] == 't' && tail[2] == 'x' && tail[3] == 't');
                }
            }
        }
    }
    r
}

/// The time of the saved command in the file `file_name`, if it is due at
/// `curr_time_millis`.
pub fn due_time(file_name: &str, curr_time_millis: u64) -> (r: Option<u64>)
    ensures
        r == due_time_of(file_name@, curr_time_millis),
{
    let n = file_name.unicode_len();
    if !ends_with_txt_at(file_name, n) {
        assert(file_name@.take(n as int) =~= file_name@);
        return None;
    }
    assert(file_name@.take(n as int) =~= file_name@);
    let mut end: usize = n;
    while ends_with_txt_at(file_name, end)
        invariant
            end <= n,
            n == file_name@.len(),
            trim_txt(file_name@.take(end as int)) == trim_txt(file_name@),
        decreases end,
    {
        assert(file_name@.take(end as int).take(end - 4) =~= file_name@.take(end - 4));
        end = end - 4;
    }
    let stem = file_name.substring_char(0, end);
    assert(stem@ =~= file_name@.take(end as int));
    match parse_u64(stem) {
        Some(t) => if t <= curr_time_millis { Some(t) } else { None },
        None => None,
    }
}

/// The file written for the command due at `time` is found again, as due at
/// every moment from `time` on and at no moment before it.
pub proof fn lemma_saved_file_round_trip(time: u64, now: u64)
    ensures
        due_time_of(decimal(time as nat) + ".txt"@, now) == if time <= now { Some(time) } else { None::<u64> },
{
    reveal_strlit(".txt");
    let d = decimal(time as nat);
    let name = d + ".txt"@;
    lemma_decimal_digits(time as nat);
    assert(name.subrange(name.len() - 4, name.len() as int) =~= ".txt"@);
    assert(name.take(name.len() - 4) =~= d);
    if ends_with_txt(d) {
        assert(is_digit(d[d.len() - 4]));
        assert(d.subrange(d.len() - 4, d.len() as int)[0] == '.');
    }
    assert(!ends_with_txt(d));
    assert(trim_txt(d) == d);
    assert(ends_with_txt(name));
    assert(trim_txt(name) == trim_txt(name.take(name.len() - 4)));
    assert(trim_txt(name) == d);
    lemma_parse_decimal(time as nat, u64::MAX as nat);
}

/// The total of `sizes`.
pub open spec fn total_size(sizes: Seq<u64>) -> int
    decreases sizes.len(),
{
    if sizes.len() == 0 { 0 } else { total_size(sizes.drop_last()) + sizes.last() }
}

proof fn lemma_total_size_prefix(s: Seq<u64>, k: int)
    requires
        0 <= k <= s.len(),
    ensures
        total_size(s.take(k)) <= total_size(s),
    decreases s.len(),
{
    if k < s.len() {
        lemma_total_size_prefix(s.drop_last(), k);
        assert(s.drop_last().take(k) =~= s.take(k));
    } else {
        assert(s.take(k) =~= s);
    }
}

/// The total size of the files among the first `k` whose positions are not
/// in `removed`.
pub open spec fn kept_prefix(sizes: Seq<u64>, removed: Seq<usize>, k: int) -> int
    decreases k,
{
    if k <= 0 {
        0
    } else {
        kept_prefix(sizes, removed, k - 1) + if removed.contains((k - 1) as usize) {
            0
        } else {
            sizes[k - 1] as int
        }
    }
}

/// The total size of the files whose positions are not in `removed`.
pub open spec fn kept_total(sizes: Seq<u64>, removed: Seq<usize>) -> int {
    kept_prefix(sizes, removed, sizes.len() as int)
}

proof fn lemma_kept_remove_one(sizes: Seq<u64>, removed: Seq<usize>, b: usize, k: int)
    requires
        !removed.contains(b),
        0 <= k <= sizes.len(),
        sizes.len() <= usize::MAX,
    ensures
        kept_prefix(sizes, removed.push(b), k) == kept_prefix(sizes, removed, k) - if (b as int)
            < k {
            sizes[b as int] as int
        } else {
            0
        },
        kept_prefix(sizes, removed.push(b), k) >= 0,
    decreases k,
{
    if k > 0 {
        lemma_kept_remove_one(sizes, removed, b, k - 1);
        let j = (k - 1) as usize;
        assert(removed.push(b).contains(j) == (removed.contains(j) || j == b)) by {
            if removed.push(b).contains(j) {
                let x = choose|x: int| 0 <= x < removed.push(b).len() && removed.push(b)[x] == j;
                if x < removed.len() {
                    assert(removed[x] == j);
                }
            }
            if removed.contains(j) {
                let x = choose|x: int| 0 <= x < removed.len() && removed[x] == j;
                assert(removed.push(b)[x] == j);
            }
            if j == b {
                assert(removed.push(b)[removed.len() as int] == j);
            }
        }
    }
}

proof fn lemma_kept_nothing_removed(sizes: Seq<u64>, k: int)
    requires
        0 <= k <= sizes.len(),
    ensures
        kept_prefix(sizes, Seq::<usize>::empty(), k) == total_size(sizes.take(k)),
    decreases k,
{
    if k > 0 {
        lemma_kept_nothing_removed(sizes, k - 1);
        assert(sizes.take(k).drop_last() =~= sizes.take(k - 1));
    }
}

proof fn lemma_kept_all_removed(sizes: Seq<u64>, removed: Seq<usize>, k: int)
    requires
        0 <= k <= sizes.len(),
        sizes.len() <= usize::MAX,
        forall|j: usize| (j as int) < k ==> #[trigger] removed.contains(j),
    ensures
        kept_prefix(sizes, removed, k) == 0,
    decreases k,
{
    if k > 0 {
        lemma_kept_all_removed(sizes, removed, k - 1);
        assert(removed.contains((k - 1) as usize));
    }
}

/// The number of `false` entries among the first `k` of `flags`.
spec fn count_false(flags: Seq<bool>, k: int) -> int
    decreases k,
{
    if k <= 0 { 0 } else { count_false(flags, k - 1) + if flags[k - 1] { 0int } else { 1int } }
}

proof fn lemma_count_false_set(flags: Seq<bool>, b: int, k: int)
    requires
        0 <= b < flags.len(),
        !flags[b],
        0 <= k <= flags.len(),
    ensures
        count_false(flags.update(b, true), k) == count_false(flags, k) - if b < k { 1int } else { 0int },
        count_false(flags.update(b, true), k) >= 0,
    decreases k,
{
    if k > 0 {
        lemma_count_false_set(flags, b, k - 1);
    }
}

/// Which saved files go, and in what order, before a new file of `new_size`
/// bytes is written to a folder whose files have the given sizes and
/// modification times: the oldest files, first of equally old ones first,
/// until the folder with the new file holds no more than its limit, or until
/// no file is left. No file goes that is not needed to reach the limit.
pub fn rollover_plan(sizes: &Vec<u64>, modified: &Vec<u128>, new_size: u64) -> (r: Vec<usize>)
    requires
        sizes@.len() == modified@.len(),
        total_size(sizes@) + new_size <= u64::MAX,
    ensures
        r@.no_duplicates(),
        forall|a: int| 0 <= a < r@.len() ==> r@[a] < sizes@.len(),
        kept_total(sizes@, r@) + new_size <= MAX_SAVED_MESSAGES_BYTES || forall|j: usize|
            j < sizes@.len() ==> #[trigger] r@.contains(j),
        new_size <= MAX_SAVED_MESSAGES_BYTES ==> kept_total(sizes@, r@) + new_size
            <= MAX_SAVED_MESSAGES_BYTES,
        r@.len() > 0 ==> kept_total(sizes@, r@.drop_last()) + new_size > MAX_SAVED_MESSAGES_BYTES,
        forall|a: int, j: usize|
            #![trigger r@[a], modified@[j as int]]
            0 <= a < r@.len() && j < sizes@.len() && !r@.contains(j)
                ==> modified@[r@[a] as int] <= modified@[j as int],
        forall|a: int, b: int| 0 <= a < b < r@.len() ==> modified@[r@[a] as int] <= modified@[r@[b] as int],
        forall|a: int, j: usize|
            #![trigger r@[a], modified@[j as int]]
            0 <= a < r@.len() && j < r@[a] && !r@.take(a).contains(j)
                ==> modified@[j as int] > modified@[r@[a] as int],
{
    let n = sizes.len();
    let mut total: u64 = 0;
    let mut i: usize = 0;
    while i < n
        invariant
            n == sizes@.len(),
            i <= n,
            total == total_size(sizes@.take(i as int)),
            total_size(sizes@) + new_size <= u64::MAX,
        decreases n - i,
    {
        proof {
            lemma_total_size_prefix(sizes@, i as int + 1);
            assert(sizes@.take(i + 1).drop_last() =~= sizes@.take(i as int));
        }
        total = total + sizes[i];
        i = i + 1;
    }
    proof {
        assert(sizes@.take(n as int) =~= sizes@);
        lemma_kept_nothing_removed(sizes@, n as int);
    }
    let mut flags: Vec<bool> = Vec::new();
    let mut k: usize = 0;
    while k < n
        invariant
            k <= n,
            flags@.len() == k,
            forall|j: int| 0 <= j < k ==> !flags@[j],
        decreases n - k,
    {
        flags.push(false);
        k = k + 1;
    }
    let mut r: Vec<usize> = Vec::new();
    let mut kept: u64 = total;
    assert(kept_total(sizes@, r@) == total);
    while kept + new_size > MAX_SAVED_MESSAGES_BYTES
        invariant
            n == sizes@.len(),
            n == modified@.len(),
            flags@.len() == n,
            total == total_size(sizes@),
            total + new_size <= u64::MAX,
            kept <= total,
            kept == kept_total(sizes@, r@),
            r@.no_duplicates(),
            forall|a: int| 0 <= a < r@.len() ==> r@[a] < n,
            forall|j: usize| j < n ==> flags@[j as int] == #[trigger] r@.contains(j),
            r@.len() > 0 ==> kept_total(sizes@, r@.drop_last()) + new_size > MAX_SAVED_MESSAGES_BYTES,
            forall|a: int, j: usize|
                #![trigger r@[a], modified@[j as int]]
                0 <= a < r@.len() && j < n && !r@.contains(j)
                    ==> modified@[r@[a] as int] <= modified@[j as int],
            forall|a: int, b: int|
                0 <= a < b < r@.len() ==> modified@[r@[a] as int] <= modified@[r@[b] as int],
            forall|a: int, j: usize|
                #![trigger r@[a], modified@[j as int]]
                0 <= a < r@.len() && j < r@[a] && !r@.take(a).contains(j)
                    ==> modified@[j as int] > modified@[r@[a] as int],
        ensures
            kept + new_size > MAX_SAVED_MESSAGES_BYTES ==> forall|j: usize| j < n ==> #[trigger] flags@[j as int],
        decreases count_false(flags@, n as int),
    {
        let mut best: usize = n;
        let mut i: usize = 0;
        while i < n
            invariant
                n == sizes@.len(),
                n == modified@.len(),
                flags@.len() == n,
                i <= n,
                best == n || (best < i && !flags@[best as int]),
                best == n ==> forall|j: int| 0 <= j < i ==> flags@[j],
                best < n ==> forall|j: int|
                    0 <= j < i && !flags@[j] ==> modified@[best as int] <= modified@[j],
                best < n ==> forall|j: int|
                    0 <= j < best && !flags@[j] ==> modified@[j] > modified@[best as int],
            decreases n - i,
        {
            if !flags[i] && (best == n || modified[i] < modified[best]) {
                best = i;
            }
            i = i + 1;
        }
        if best == n {
            break;
        }
        let ghost old_r = r@;
        proof {
            assert(!old_r.contains(best));
            lemma_kept_remove_one(sizes@, old_r, best, n as int);
            lemma_count_false_set(flags@, best as int, n as int);
        }
        flags.set(best, true);
        r.push(best);
        kept = kept - sizes[best];
        proof {
            assert(r@.drop_last() =~= old_r);
            assert(r@.take(old_r.len() as int) =~= old_r);
            assert forall|j: usize| #[trigger] r@.contains(j) == (old_r.contains(j) || j == best) by {
                if r@.contains(j) {
                    let x = choose|x: int| 0 <= x < r@.len() && r@[x] == j;
                    if x < old_r.len() {
                        assert(old_r[x] == j);
                    }
                }
                if old_r.contains(j) {
                    let x = choose|x: int| 0 <= x < old_r.len() && old_r[x] == j;
                    assert(r@[x] == j);
                }
                if j == best {
                    assert(r@[old_r.len() as int] == j);
                }
            }
            assert forall|a: int| 0 <= a < old_r.len() implies r@.take(a) == old_r.take(a) by {
                assert(r@.take(a) =~= old_r.take(a));
            }
        }
    }
    proof {
        if kept + new_size > MAX_SAVED_MESSAGES_BYTES {
            assert forall|j: usize| j < n implies #[trigger] r@.contains(j) by {
                assert(flags@[j as int]);
            }
            lemma_kept_all_removed(sizes@, r@, n as int);
        }
    }
    r
}

/// The texts of a list of strings.
pub open spec fn texts(v: Seq<String>) -> Seq<Seq<char>> {
    Seq::new(v.len(), |k: int| v[k]@)
}

/// The file named `names[i]` is sent now: it is due at `now`, it was not
/// sent before (its name is not in `read`), and no earlier file of the list
/// has the same name.
pub open spec fn sent_now(names: Seq<Seq<char>>, read: Seq<Seq<char>>, now: u64, i: int) -> bool {
    &&& due_time_of(names[i], now) is Some
    &&& !read.contains(names[i])
    &&& forall|j: int| 0 <= j < i ==> names[j] != names[i]
}

/// `x` is the name of a file of the list that is due at `now`.
pub open spec fn is_due_name(names: Seq<Seq<char>>, now: u64, x: Seq<char>) -> bool {
    exists|i: int| 0 <= i < names.len() && names[i] == x && due_time_of(x, now) is Some
}

proof fn lemma_push_contains<A>(s: Seq<A>, a: A, x: A)
    ensures
        s.push(a).contains(x) == (s.contains(x) || x == a),
{
    if s.push(a).contains(x) {
        let k = choose|k: int| 0 <= k < s.push(a).len() && s.push(a)[k] == x;
        if k < s.len() {
            assert(s[k] == x);
        }
    }
    if s.contains(x) {
        let k = choose|k: int| 0 <= k < s.len() && s[k] == x;
        assert(s.push(a)[k] == x);
    }
    if x == a {
        assert(s.push(a)[s.len() as int] == x);
    }
}

/// Picks the saved files to send at `curr_time_millis` from the folder's file
/// names, and records them as read: each due file whose name was not read
/// before is sent once, and every due name is read afterwards. Returns the
/// positions of the files to send, in order.
pub fn select_due_messages(already_read: &mut Vec<String>, names: &Vec<String>, curr_time_millis: u64) -> (r: Vec<usize>)
    ensures
        forall|x: Seq<char>|
            #[trigger] texts(final(already_read)@).contains(x) == (texts(old(already_read)@).contains(x)
                || is_due_name(texts(names@), curr_time_millis, x)),
        forall|i: int|
            0 <= i < names@.len() ==> (r@.contains(i as usize) == sent_now(
                texts(names@),
                texts(old(already_read)@),
                curr_time_millis,
                i,
            )),
        forall|k: int| 0 <= k < r@.len() ==> r@[k] < names@.len(),
        forall|a: int, b: int| 0 <= a < b < r@.len() ==> r@[a] < r@[b],
{
    let ghost old_read = texts(already_read@);
    let ghost ns = texts(names@);
    let mut r: Vec<usize> = Vec::new();
    let mut i: usize = 0;
    while i < names.len()
        invariant
            i <= names@.len(),
            ns == texts(names@),
            old_read == texts(old(already_read)@),
            forall|x: Seq<char>|
                #[trigger] texts(already_read@).contains(x) == (old_read.contains(x) || exists|j: int|
                    0 <= j < i && ns[j] == x && due_time_of(x, curr_time_millis) is Some),
            forall|j: int| 0 <= j < i ==> (r@.contains(j as usize) == sent_now(ns, old_read, curr_time_millis, j)),
            forall|k: int| 0 <= k < r@.len() ==> r@[k] < i,
            forall|a: int, b: int| 0 <= a < b < r@.len() ==> r@[a] < r@[b],
        decreases names@.len() - i,
    {
        let name = &names[i];
        assert(ns[i as int] == name@);
        let ghost before = texts(already_read@);
        let ghost old_r = r@;
        if due_time(name.as_str(), curr_time_millis).is_some() {
            let mut found = false;
            let mut k: usize = 0;
            while k < already_read.len()
                invariant
                    k <= already_read@.len(),
                    found == exists|m: int| 0 <= m < k && already_read@[m]@ == name@,
                decreases already_read@.len() - k,
            {
                if str_eq(already_read[k].as_str(), name.as_str()) {
                    found = true;
                }
                k = k + 1;
            }
            assert(found == before.contains(name@)) by {
                if found {
                    let m = choose|m: int| 0 <= m < k && already_read@[m]@ == name@;
                    assert(before[m] == name@);
                }
                if before.contains(name@) {
                    let m = choose|m: int| 0 <= m < before.len() && before[m] == name@;
                    assert(already_read@[m]@ == name@);
                }
            }
            if !found {
                already_read.push(name.clone());
                r.push(i);
                assert(texts(already_read@) =~= before.push(name@));
            }
        }
        proof {
            let due = due_time_of(name@, curr_time_millis) is Some;
            assert forall|x: Seq<char>|
                #[trigger] texts(already_read@).contains(x) == (old_read.contains(x) || exists|j: int|
                    0 <= j < i + 1 && ns[j] == x && due_time_of(x, curr_time_millis) is Some) by {
                if texts(already_read@) != before {
                    lemma_push_contains(before, name@, x);
                }
                if x == name@ && due {
                    assert(ns[i as int] == x);
                }
                if exists|j: int| 0 <= j < i + 1 && ns[j] == x && due_time_of(x, curr_time_millis) is Some {
                    let j = choose|j: int| 0 <= j < i + 1 && ns[j] == x && due_time_of(x, curr_time_millis) is Some;
                    if j < i {
                        assert(exists|j: int| 0 <= j < i && ns[j] == x && due_time_of(x, curr_time_millis) is Some);
                    }
                }
            }
            assert forall|j: int| 0 <= j < i + 1 implies (r@.contains(j as usize) == sent_now(ns, old_read, curr_time_millis, j)) by {
                if r@ != old_r {
                    lemma_push_contains(old_r, i, j as usize);
                }
                if j == i {
                    if due && !before.contains(name@) {
                        // not read before, and no earlier file had the name
                        assert forall|m: int| 0 <= m < i implies ns[m] != ns[i as int] by {
                            if ns[m] == ns[i as int] {
                                assert(before.contains(ns[m]));
                            }
                        }
                    }
                    if due && before.contains(name@) && !old_read.contains(name@) {
                        let m = choose|m: int| 0 <= m < i && ns[m] == name@ && due_time_of(name@, curr_time_millis) is Some;
                        assert(ns[m] == ns[i as int]);
                    }
                }
            }
        }
        i = i + 1;
    }
    proof {
        assert forall|x: Seq<char>|
            #[trigger] texts(already_read@).contains(x) == (old_read.contains(x) || is_due_name(ns, curr_time_millis, x)) by {
        }
    }
    r
}

/// Once a pass has recorded the due files as read, a second pass at the same
/// moment over the same names sends nothing: each saved file is sent at most
/// once.
pub proof fn lemma_second_pass_sends_nothing(
    names: Seq<Seq<char>>,
    read: Seq<Seq<char>>,
    read_after: Seq<Seq<char>>,
    now: u64,
)
    requires
        forall|x: Seq<char>| #[trigger] read_after.contains(x) == (read.contains(x) || is_due_name(names, now, x)),
    ensures
        forall|i: int| 0 <= i < names.len() ==> !sent_now(names, read_after, now, i),
{
    assert forall|i: int| 0 <= i < names.len() implies !sent_now(names, read_after, now, i) by {
        if due_time_of(names[i], now) is Some {
            assert(is_due_name(names, now, names[i]));
            assert(read_after.contains(names[i]));
        }
    }
}

} // verus!
