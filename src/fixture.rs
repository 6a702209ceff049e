use vstd::prelude::*;

verus! {

/// A message that a fixture expects to find in the outgoing log.
pub struct ExpectedMessage {
    pub destination: u64,
    pub payload: Vec<u8>,
}

/// A message that was actually sent.
pub struct SentMessage {
    pub dest: u64,
    pub payload: Vec<u8>,
}

/// A memory page that a fixture expects to be allocated to a program.
pub struct ExpectedAllocation {
    pub page_num: u32,
    pub program_id: u64,
}

pub open spec fn messages_header() -> Seq<char> {
    "Messages:\n"@
}

pub open spec fn messages_count_line() -> Seq<char> {
    "Expectation error (messages count doesn't match)\n"@
}

pub open spec fn destination_line() -> Seq<char> {
    "Expectation error (destination doesn't match)\n"@
}

pub open spec fn payload_line() -> Seq<char> {
    "Expectation error (payload doesn't match)\n"@
}

pub open spec fn allocation_header() -> Seq<char> {
    " Allocation:\n"@
}

pub open spec fn pages_count_line() -> Seq<char> {
    "Expectation error (pages count doesn't match)\n"@
}

pub open spec fn page_line() -> Seq<char> {
    "Expectation error (PageNumber doesn't match)\n"@
}

pub open spec fn program_line() -> Seq<char> {
    "Expectation error (ProgramId doesn't match)\n"@
}

pub open spec fn ok_line() -> Seq<char> {
    "Ok\n"@
}

/// `line` when `differs`, else nothing.
pub open spec fn line_if(differs: bool, line: Seq<char>) -> Seq<char> {
    if differs {
        line
    } else {
        Seq::empty()
    }
}

pub open spec fn count_if(differs: bool) -> nat {
    if differs {
        1
    } else {
        0
    }
}

/// The sent message that the `j`-th expected one is held against: the log
/// holds the most recent message first.
pub open spec fn sent_for(sent: Seq<SentMessage>, j: int) -> SentMessage {
    sent[sent.len() - 1 - j]
}

pub open spec fn message_pair_lines(e: ExpectedMessage, s: SentMessage) -> Seq<char> {
    line_if(e.destination != s.dest, destination_line()) + line_if(
        e.payload@ != s.payload@,
        payload_line(),
    )
}

pub open spec fn message_pair_errors(e: ExpectedMessage, s: SentMessage) -> nat {
    count_if(e.destination != s.dest) + count_if(e.payload@ != s.payload@)
}

/// Mismatch lines for the first `i` expected messages.
pub open spec fn message_lines(expected: Seq<ExpectedMessage>, sent: Seq<SentMessage>, i: nat) -> Seq<
    char,
>
    decreases i,
{
    if i == 0 {
        Seq::empty()
    } else {
        message_lines(expected, sent, (i - 1) as nat) + message_pair_lines(
            expected[i - 1],
            sent_for(sent, i - 1),
        )
    }
}

/// Mismatches among the first `i` expected messages.
pub open spec fn message_mismatches(
    expected: Seq<ExpectedMessage>,
    sent: Seq<SentMessage>,
    i: nat,
) -> nat
    decreases i,
{
    if i == 0 {
        0
    } else {
        message_mismatches(expected, sent, (i - 1) as nat) + message_pair_errors(
            expected[i - 1],
            sent_for(sent, i - 1),
        )
    }
}

/// The number of mismatches that checking `sent` against `expected` reports.
pub open spec fn message_errors(expected: Seq<ExpectedMessage>, sent: Seq<SentMessage>) -> nat {
    if expected.len() != sent.len() {
        1
    } else {
        message_mismatches(expected, sent, expected.len())
    }
}

/// The report that checking `sent` against `expected` appends.
pub open spec fn messages_report(expected: Seq<ExpectedMessage>, sent: Seq<SentMessage>) -> Seq<
    char,
> {
    messages_header() + (if expected.len() != sent.len() {
        messages_count_line()
    } else {
        message_lines(expected, sent, expected.len())
    }) + line_if(message_errors(expected, sent) == 0, ok_line())
}

/// Every expected message matches, by position, the sent one in destination
/// and payload, and there are as many of each.
pub open spec fn messages_match(expected: Seq<ExpectedMessage>, sent: Seq<SentMessage>) -> bool {
    &&& expected.len() == sent.len()
    &&& forall|j: int|
        0 <= j < expected.len() ==> expected[j].destination == #[trigger] sent_for(sent, j).dest
            && expected[j].payload@ == sent_for(sent, j).payload@
}

proof fn lemma_message_mismatches(expected: Seq<ExpectedMessage>, sent: Seq<SentMessage>, i: nat)
    requires
        i <= expected.len(),
        expected.len() == sent.len(),
    ensures
        message_mismatches(expected, sent, i) <= 2 * i,
        message_mismatches(expected, sent, i) == 0 <==> forall|j: int|
            0 <= j < i ==> expected[j].destination == #[trigger] sent_for(sent, j).dest
                && expected[j].payload@ == sent_for(sent, j).payload@,
    decreases i,
{
    if i > 0 {
        lemma_message_mismatches(expected, sent, (i - 1) as nat);
    }
}

/// A check reports no mismatch exactly when the counts agree and every
/// expected message matches its sent one.
pub proof fn lemma_messages_clean_iff_match(expected: Seq<ExpectedMessage>, sent: Seq<SentMessage>)
    ensures
        message_errors(expected, sent) == 0 <==> messages_match(expected, sent),
{
    if expected.len() == sent.len() {
        lemma_message_mismatches(expected, sent, expected.len());
    }
}

/// Relies on String::push_str: appends `s` to `res`.
#[verifier::external_body]
fn push_str(res: &mut String, s: &str)
    ensures
        final(res)@ == old(res)@ + s@,
{
    res.push_str(s)
}

fn bytes_equal(a: &Vec<u8>, b: &Vec<u8>) -> (r: bool)
    ensures
        r == (a@ == b@),
{
    if a.len() != b.len() {
        return false;
    }
    let mut i: usize = 0;
    while i < a.len()
        invariant
            a@.len() == b@.len(),
            0 <= i <= a@.len(),
            forall|j: int| 0 <= j < i ==> a@[j] == b@[j],
        decreases a@.len() - i,
    {
        if a[i] != b[i] {
            return false;
        }
        i = i + 1;
    }
    assert(a@ =~= b@);
    true
}

/// Appends to `res` the report of checking the sent messages, most recent
/// first, against the expected ones, and returns the number of mismatches:
/// one for a count that differs, else one for each destination and each
/// payload that differs.
pub fn check_messages(res: &mut String, messages: &Vec<SentMessage>, expected_messages: &Vec<ExpectedMessage>) -> (err: usize)
    requires
        expected_messages@.len() <= usize::MAX / 2,
    ensures
        err == message_errors(expected_messages@, messages@),
        (err == 0) == messages_match(expected_messages@, messages@),
        final(res)@ == old(res)@ + messages_report(expected_messages@, messages@),
{
    let mut err: usize = 0;
    push_str(res, "Messages:\n");
    if expected_messages.len() != messages.len() {
        push_str(res, "Expectation error (messages count doesn't match)\n");
        err = 1;
    } else {
        let n = messages.len();
        let mut i: usize = 0;
        while i < n
            invariant
                n == messages@.len(),
                n == expected_messages@.len(),
                n <= usize::MAX / 2,
                0 <= i <= n,
                err == message_mismatches(expected_messages@, messages@, i as nat),
                err <= 2 * i,
                res@ == old(res)@ + messages_header() + message_lines(
                    expected_messages@,
                    messages@,
                    i as nat,
                ),
            decreases n - i,
        {
            proof {
                lemma_message_mismatches(expected_messages@, messages@, (i + 1) as nat);
            }
            let exp = &expected_messages[i];
            let msg = &messages[n - 1 - i];
            if exp.destination != msg.dest {
                push_str(res, "Expectation error (destination doesn't match)\n");
                err = err + 1;
            }
            if !bytes_equal(&exp.payload, &msg.payload) {
                push_str(res, "Expectation error (payload doesn't match)\n");
                err = err + 1;
            }
            i = i + 1;
            proof {
                assert(res@ =~= old(res)@ + messages_header() + message_lines(
                    expected_messages@,
                    messages@,
                    i as nat,
                ));
            }
        }
    }
    if err == 0 {
        push_str(res, "Ok\n");
    }
    proof {
        lemma_messages_clean_iff_match(expected_messages@, messages@);
        assert(res@ =~= old(res)@ + messages_report(expected_messages@, messages@));
    }
    err
}

pub open spec fn page_pair_lines(e: ExpectedAllocation, page: (u32, u64)) -> Seq<char> {
    line_if(e.page_num != page.0, page_line()) + line_if(e.program_id != page.1, program_line())
}

pub open spec fn page_pair_errors(e: ExpectedAllocation, page: (u32, u64)) -> nat {
    count_if(e.page_num != page.0) + count_if(e.program_id != page.1)
}

/// Mismatch lines for the first `i` expected allocations.
pub open spec fn page_lines(expected: Seq<ExpectedAllocation>, pages: Seq<(u32, u64)>, i: nat) -> Seq<
    char,
>
    decreases i,
{
    if i == 0 {
        Seq::empty()
    } else {
        page_lines(expected, pages, (i - 1) as nat) + page_pair_lines(expected[i - 1], pages[i - 1])
    }
}

/// Mismatches among the first `i` expected allocations.
pub open spec fn page_mismatches(expected: Seq<ExpectedAllocation>, pages: Seq<(u32, u64)>, i: nat) -> nat
    decreases i,
{
    if i == 0 {
        0
    } else {
        page_mismatches(expected, pages, (i - 1) as nat) + page_pair_errors(
            expected[i - 1],
            pages[i - 1],
        )
    }
}

/// The number of mismatches that checking `pages` against `expected` reports.
pub open spec fn allocation_errors(expected: Seq<ExpectedAllocation>, pages: Seq<(u32, u64)>) -> nat {
    if expected.len() != pages.len() {
        1
    } else {
        page_mismatches(expected, pages, expected.len())
    }
}

/// The report that checking `pages` against `expected` appends.
pub open spec fn allocation_report(expected: Seq<ExpectedAllocation>, pages: Seq<(u32, u64)>) -> Seq<
    char,
> {
    allocation_header() + (if expected.len() != pages.len() {
        pages_count_line()
    } else {
        page_lines(expected, pages, expected.len())
    }) + line_if(allocation_errors(expected, pages) == 0, ok_line())
}

/// Every expected allocation matches, by position, the actual one in page
/// number and owning program, and there are as many of each.
pub open spec fn allocation_match(expected: Seq<ExpectedAllocation>, pages: Seq<(u32, u64)>) -> bool {
    &&& expected.len() == pages.len()
    &&& forall|j: int|
        0 <= j < expected.len() ==> expected[j].page_num == #[trigger] pages[j].0
            && expected[j].program_id == pages[j].1
}

proof fn lemma_page_mismatches(expected: Seq<ExpectedAllocation>, pages: Seq<(u32, u64)>, i: nat)
    requires
        i <= expected.len(),
        expected.len() == pages.len(),
    ensures
        page_mismatches(expected, pages, i) <= 2 * i,
        page_mismatches(expected, pages, i) == 0 <==> forall|j: int|
            0 <= j < i ==> expected[j].page_num == #[trigger] pages[j].0 && expected[j].program_id
                == pages[j].1,
    decreases i,
{
    if i > 0 {
        lemma_page_mismatches(expected, pages, (i - 1) as nat);
    }
}

/// An allocation check reports no mismatch exactly when the counts agree and
/// every expected allocation matches the actual one at its position.
pub proof fn lemma_allocation_clean_iff_match(expected: Seq<ExpectedAllocation>, pages: Seq<(u32, u64)>)
    ensures
        allocation_errors(expected, pages) == 0 <==> allocation_match(expected, pages),
{
    if expected.len() == pages.len() {
        lemma_page_mismatches(expected, pages, expected.len());
    }
}

/// Appends to `res` the report of checking the allocated pages, each with
/// its owning program, against the expected ones, position by position, and
/// returns the number of mismatches: one for a count that differs, else one
/// for each page number and each owner that differs.
pub fn check_allocation(res: &mut String, pages: &Vec<(u32, u64)>, expected_pages: &Vec<ExpectedAllocation>) -> (err: usize)
    requires
        expected_pages@.len() <= usize::MAX / 2,
    ensures
        err == allocation_errors(expected_pages@, pages@),
        (err == 0) == allocation_match(expected_pages@, pages@),
        final(res)@ == old(res)@ + allocation_report(expected_pages@, pages@),
{
    let mut err: usize = 0;
    push_str(res, " Allocation:\n");
    if expected_pages.len() != pages.len() {
        push_str(res, "Expectation error (pages count doesn't match)\n");
        err = 1;
    } else {
        let n = pages.len();
        let mut i: usize = 0;
        while i < n
            invariant
                n == pages@.len(),
                n == expected_pages@.len(),
                n <= usize::MAX / 2,
                0 <= i <= n,
                err == page_mismatches(expected_pages@, pages@, i as nat),
                err <= 2 * i,
                res@ == old(res)@ + allocation_header() + page_lines(
                    expected_pages@,
                    pages@,
                    i as nat,
                ),
            decreases n - i,
        {
            proof {
                lemma_page_mismatches(expected_pages@, pages@, (i + 1) as nat);
            }
            let exp = &expected_pages[i];
            let page = pages[i];
            if exp.page_num != page.0 {
                push_str(res, "Expectation error (PageNumber doesn't match)\n");
                err = err + 1;
            }
            if exp.program_id != page.1 {
                push_str(res, "Expectation error (ProgramId doesn't match)\n");
                err = err + 1;
            }
            i = i + 1;
            proof {
                assert(res@ =~= old(res)@ + allocation_header() + page_lines(
                    expected_pages@,
                    pages@,
                    i as nat,
                ));
            }
        }
    }
    if err == 0 {
        push_str(res, "Ok\n");
    }
    proof {
        lemma_allocation_clean_iff_match(expected_pages@, pages@);
        assert(res@ =~= old(res)@ + allocation_report(expected_pages@, pages@));
    }
    err
}

} // verus!
