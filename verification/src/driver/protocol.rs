//! Feature reports: their layout, and the exchange of a request for a response.

use vstd::prelude::*;

verus! {

/// The number of bytes of a report, its id included.
pub const REPORT_LEN: usize = 91;

/// The number of data bytes of a report.
pub const DATA_LEN: usize = 80;

/// The milliseconds that a device is given to prepare its response.
pub const RESPONSE_DELAY_MS: u64 = 30;

/// The status of a response from a device that is busy.
pub const STATUS_BUSY: u8 = 1;

/// The status of a response from a device that did as it was asked.
pub const STATUS_SUCCESS: u8 = 2;

/// A feature report.
#[derive(Debug)]
pub struct Report {
    pub report_id: u8,
    pub status: u8,
    pub transaction_id: u8,
    pub reserved1: [u8; 3],
    pub data_len: u8,
    pub command_class: u8,
    pub command_id: u8,
    pub data: [u8; 80],
    pub checksum: u8,
    pub reserved2: u8,
}

/// The bytes of a report, in the order in which they go over the wire.
pub open spec fn report_bytes(report: Report) -> Seq<u8> {
    seq![report.report_id, report.status, report.transaction_id] + report.reserved1@ + seq![
        report.data_len,
        report.command_class,
        report.command_id,
    ] + report.data@ + seq![report.checksum, report.reserved2]
}

/// The exclusive or of all the bytes.
pub open spec fn xor_all(bytes: Seq<u8>) -> u8
    decreases bytes.len(),
{
    if bytes.len() == 0 {
        0
    } else {
        xor_all(bytes.drop_last()) ^ bytes.last()
    }
}

/// The checksum of a report that is written `bytes`: over all that lies between the transaction
/// id and the checksum.
pub open spec fn report_checksum(bytes: Seq<u8>) -> u8 {
    xor_all(bytes.subrange(3, 89))
}

/// The bytes do not have the length of a report.
#[derive(Debug, Clone, Copy, PartialEq, Eq, Structural)]
pub struct WrongLength;

impl Report {
    /// The bytes of the report.
    pub fn as_bytes(&self) -> (bytes: [u8; 91])
        ensures
            bytes@ == report_bytes(*self),
    {
        let mut bytes: [u8; 91] = [0; 91];
        bytes[0] = self.report_id;
        bytes[1] = self.status;
        bytes[2] = self.transaction_id;
        bytes[3] = self.reserved1[0];
        bytes[4] = self.reserved1[1];
        bytes[5] = self.reserved1[2];
        bytes[6] = self.data_len;
        bytes[7] = self.command_class;
        bytes[8] = self.command_id;
        bytes[89] = self.checksum;
        bytes[90] = self.reserved2;
        proof {
            let whole = report_bytes(*self);
            assert(whole[0] == bytes@[0] && whole[1] == bytes@[1] && whole[2] == bytes@[2]);
            assert(whole[3] == bytes@[3] && whole[4] == bytes@[4] && whole[5] == bytes@[5]);
            assert(whole[6] == bytes@[6] && whole[7] == bytes@[7] && whole[8] == bytes@[8]);
            assert(whole[89] == bytes@[89] && whole[90] == bytes@[90]);
        }
        let mut i: usize = 0;
        while i < DATA_LEN
            invariant
                i <= DATA_LEN,
                bytes@.len() == 91,
                forall|j: int| 0 <= j < i ==> bytes@[9 + j] == self.data@[j],
                forall|j: int|
                    0 <= j < 9 || 89 <= j < 91 ==> bytes@[j] == report_bytes(*self)[j],
            decreases DATA_LEN - i,
        {
            bytes[9 + i] = self.data[i];
            i += 1;
        }
        assert forall|j: int| 0 <= j < 91 implies bytes@[j] == report_bytes(*self)[j] by {
            if 9 <= j < 89 {
                assert(bytes@[9 + (j - 9)] == self.data@[j - 9]);
            }
        }
        assert(bytes@ =~= report_bytes(*self));
        bytes
    }

    /// The report that is written `bytes`.
    pub fn read_from_bytes(bytes: &[u8]) -> (report: Result<Report, WrongLength>)
        ensures
            report is Ok <==> bytes@.len() == REPORT_LEN,
            report matches Ok(r) ==> report_bytes(r) == bytes@,
    {
        if bytes.len() != REPORT_LEN {
            return Err(WrongLength);
        }
        let mut data: [u8; 80] = [0; 80];
        let mut i: usize = 0;
        while i < DATA_LEN
            invariant
                i <= DATA_LEN,
                bytes@.len() == REPORT_LEN,
                forall|j: int| 0 <= j < i ==> data@[j] == bytes@[9 + j],
            decreases DATA_LEN - i,
        {
            data[i] = bytes[9 + i];
            i += 1;
        }
        let report = Report {
            report_id: bytes[0],
            status: bytes[1],
            transaction_id: bytes[2],
            reserved1: [bytes[3], bytes[4], bytes[5]],
            data_len: bytes[6],
            command_class: bytes[7],
            command_id: bytes[8],
            data,
            checksum: bytes[89],
            reserved2: bytes[90],
        };
        assert forall|j: int| 0 <= j < 91 implies report_bytes(report)[j] == bytes@[j] by {
            if 9 <= j < 89 {
                assert(data@[j - 9] == bytes@[9 + (j - 9)]);
            }
        }
        assert(report_bytes(report) =~= bytes@);
        Ok(report)
    }
}

/// Two reports with the same bytes are the same report, so that reading what was written gives the
/// report back.
pub proof fn lemma_report_bytes_injective(a: Report, b: Report)
    requires
        report_bytes(a) == report_bytes(b),
    ensures
        a == b,
{
    let x = report_bytes(a);
    let y = report_bytes(b);
    assert(a.report_id == x[0] && b.report_id == y[0]);
    assert(a.status == x[1] && b.status == y[1]);
    assert(a.transaction_id == x[2] && b.transaction_id == y[2]);
    assert(a.data_len == x[6] && b.data_len == y[6]);
    assert(a.command_class == x[7] && b.command_class == y[7]);
    assert(a.command_id == x[8] && b.command_id == y[8]);
    assert(a.checksum == x[89] && b.checksum == y[89]);
    assert(a.reserved2 == x[90] && b.reserved2 == y[90]);
    assert forall|i: int| 0 <= i < 3 implies a.reserved1@[i] == b.reserved1@[i] by {
        assert(a.reserved1@[i] == x[3 + i] && b.reserved1@[i] == y[3 + i]);
    }
    assert forall|i: int| 0 <= i < 80 implies a.data@[i] == b.data@[i] by {
        assert(a.data@[i] == x[9 + i] && b.data@[i] == y[9 + i]);
    }
    assert(a.reserved1 =~= b.reserved1);
    assert(a.data =~= b.data);
}

/// What a device is asked.
pub struct Request {
    pub data_len: u8,
    pub command_class: u8,
    pub command_id: u8,
    pub data: [u8; 80],
}

impl Request {
    /// A request without data. `data_len` is the number of data bytes that the response is to
    /// hold.
    pub fn new(command_class: u8, command_id: u8, data_len: u8) -> (request: Request)
        ensures
            request.command_class == command_class,
            request.command_id == command_id,
            request.data_len == data_len,
            request.data@ == Seq::new(80, |i: int| 0u8),
    {
        let data: [u8; 80] = [0; 80];
        assert(data@ =~= Seq::new(80, |i: int| 0u8));
        Request { data_len, command_class, command_id, data }
    }

    /// The same request with `data` at the front of its data.
    pub fn with_data(self, data: &[u8]) -> (request: Request)
        requires
            data@.len() <= DATA_LEN,
        ensures
            request.command_class == self.command_class,
            request.command_id == self.command_id,
            request.data_len == self.data_len,
            request.data@ == data@ + self.data@.skip(data@.len() as int),
    {
        let mut all: [u8; 80] = self.data;
        let mut i: usize = 0;
        while i < data.len()
            invariant
                i <= data@.len() <= DATA_LEN,
                all@.len() == 80,
                forall|j: int| 0 <= j < i ==> all@[j] == data@[j],
                forall|j: int| i <= j < 80 ==> all@[j] == self.data@[j],
            decreases data@.len() - i,
        {
            all[i] = data[i];
            i += 1;
        }
        assert(all@ =~= data@ + self.data@.skip(data@.len() as int));
        Request {
            data_len: self.data_len,
            command_class: self.command_class,
            command_id: self.command_id,
            data: all,
        }
    }
}

/// Whether `request` asks for the command `command_id` of the class `command_class`, with
/// `data_len` bytes to answer, and with `data` followed by zeros.
pub open spec fn is_request(
    request: Request,
    command_class: u8,
    command_id: u8,
    data_len: u8,
    data: Seq<u8>,
) -> bool {
    &&& request.command_class == command_class
    &&& request.command_id == command_id
    &&& request.data_len == data_len
    &&& request.data@ == data + Seq::new((80 - data.len()) as nat, |i: int| 0u8)
}

/// A request for a device, with the bits that the device wants in the transaction ids.
pub struct RequestTask {
    pub request: Request,
    pub base_transaction_id: u8,
}

/// Whether `report` asks `request` in the transaction `transaction_id`.
pub open spec fn is_request_report(report: Report, request: Request, transaction_id: u8) -> bool {
    &&& report.report_id == 0
    &&& report.status == 0
    &&& report.transaction_id == transaction_id
    &&& report.reserved1@ == seq![0u8, 0u8, 0u8]
    &&& report.data_len == request.data_len
    &&& report.command_class == request.command_class
    &&& report.command_id == request.command_id
    &&& report.data@ == request.data@
    &&& report.checksum == report_checksum(report_bytes(report))
    &&& report.reserved2 == 0
}

/// The exclusive or of the bytes of `bytes` from `from` up to, and without, `to`.
fn xor_range(bytes: &[u8; 91], from: usize, to: usize) -> (xor: u8)
    requires
        from <= to <= 91,
    ensures
        xor == xor_all(bytes@.subrange(from as int, to as int)),
{
    let mut xor: u8 = 0;
    let mut i: usize = from;
    assert(bytes@.subrange(from as int, from as int) =~= Seq::empty());
    while i < to
        invariant
            from <= i <= to <= 91,
            xor == xor_all(bytes@.subrange(from as int, i as int)),
        decreases to - i,
    {
        let ghost longer = bytes@.subrange(from as int, i + 1);
        assert(longer.drop_last() =~= bytes@.subrange(from as int, i as int));
        assert(longer.last() == bytes@[i as int]);
        xor = xor ^ bytes[i];
        i += 1;
    }
    xor
}

/// Why a response was refused.
#[derive(Debug, Clone, Copy, PartialEq, Eq, Structural)]
pub enum ExchangeError {
    /// The device gave another status than that of success.
    Status(u8),
    /// The response belongs to another transaction.
    TransactionId,
    /// The response belongs to a command of another class.
    CommandClass,
    /// The response belongs to another command.
    CommandId,
}

/// What a response means for the exchange.
pub enum Outcome {
    /// The device is busy: the same report is to be sent again.
    Busy,
    /// The device answered.
    Done(Report),
    /// The exchange failed.
    Failed(ExchangeError),
}

/// A request on its way: sent until the device is not busy.
pub struct Exchange {
    pub request: Request,
    pub transaction_id: u8,
}

impl Exchange {
    /// The report to send.
    pub fn report(&self) -> (report: Report)
        ensures
            is_request_report(report, self.request, self.transaction_id),
    {
        let mut report = Report {
            report_id: 0,
            status: 0,
            transaction_id: self.transaction_id,
            reserved1: [0, 0, 0],
            data_len: self.request.data_len,
            command_class: self.request.command_class,
            command_id: self.request.command_id,
            data: self.request.data,
            checksum: 0,
            reserved2: 0,
        };
        let bytes = report.as_bytes();
        let ghost without = report;
        report.checksum = xor_range(&bytes, 3, 89);
        proof {
            assert(report_bytes(report).subrange(3, 89) =~= report_bytes(without).subrange(3, 89));
            assert(report.reserved1@ =~= seq![0u8, 0u8, 0u8]);
        }
        report
    }

    /// What the response `response` means.
    pub fn process_response(&self, response: &[u8; 91]) -> (outcome: Outcome)
        ensures
            outcome is Busy <==> response@[1] == STATUS_BUSY,
            outcome is Done <==> {
                &&& response@[1] == STATUS_SUCCESS
                &&& response@[2] == self.transaction_id
                &&& response@[7] == self.request.command_class
                &&& response@[8] == self.request.command_id
            },
            outcome matches Outcome::Done(report) ==> report_bytes(report) == response@,
            outcome matches Outcome::Failed(error) ==> error == (if response@[1]
                != STATUS_SUCCESS {
                ExchangeError::Status(response@[1])
            } else if response@[2] != self.transaction_id {
                ExchangeError::TransactionId
            } else if response@[7] != self.request.command_class {
                ExchangeError::CommandClass
            } else {
                ExchangeError::CommandId
            }),
    {
        match Report::read_from_bytes(response.as_slice()) {
            Err(_) => {
                assert(false);
                Outcome::Busy
            },
            Ok(report) => {
                proof {
                    let bytes = report_bytes(report);
                    assert(bytes[1] == report.status && bytes[2] == report.transaction_id);
                    assert(bytes[7] == report.command_class && bytes[8] == report.command_id);
                }
                if report.status == STATUS_BUSY {
                    Outcome::Busy
                } else if report.status != STATUS_SUCCESS {
                    Outcome::Failed(ExchangeError::Status(report.status))
                } else if report.transaction_id != self.transaction_id {
                    Outcome::Failed(ExchangeError::TransactionId)
                } else if report.command_class != self.request.command_class {
                    Outcome::Failed(ExchangeError::CommandClass)
                } else if report.command_id != self.request.command_id {
                    Outcome::Failed(ExchangeError::CommandId)
                } else {
                    Outcome::Done(report)
                }
            },
        }
    }
}

/// The number of transaction ids that a device is used with before they start over.
pub const TRANSACTION_IDS: u8 = 31;

/// The requests to one device, which are processed one after the other.
pub struct HidWorker {
    next_transaction: u8,
}

impl HidWorker {
    /// The number that goes into the id of the next transaction.
    pub closed spec fn next_transaction(self) -> u8 {
        self.next_transaction
    }

    #[verifier::type_invariant]
    spec fn wf(self) -> bool {
        self.next_transaction < TRANSACTION_IDS
    }

    /// A worker that has not processed a request.
    pub fn new() -> (worker: HidWorker)
        ensures
            worker.next_transaction() == 0,
    {
        HidWorker { next_transaction: 0 }
    }

    /// Takes up a request. Its transaction gets an id of its own, whatever comes of it.
    pub fn start(&mut self, task: RequestTask) -> (exchange: Exchange)
        ensures
            old(self).next_transaction() < TRANSACTION_IDS,
            exchange.request == task.request,
            exchange.transaction_id == task.base_transaction_id | old(self).next_transaction(),
            final(self).next_transaction() == (old(self).next_transaction() + 1) % 31,
    {
        proof {
            use_type_invariant(&*self);
        }
        let transaction_id: u8 = task.base_transaction_id | self.next_transaction;
        self.next_transaction = (self.next_transaction + 1) % TRANSACTION_IDS;
        Exchange { request: task.request, transaction_id }
    }
}

/// A sent report checks itself: the exclusive or over the checked bytes and the checksum is zero.
pub proof fn lemma_checksum_cancels(report: Report, request: Request, transaction_id: u8)
    requires
        is_request_report(report, request, transaction_id),
    ensures
        xor_all(report_bytes(report).subrange(3, 90)) == 0,
{
    let bytes = report_bytes(report);
    assert(bytes.subrange(3, 90).drop_last() =~= bytes.subrange(3, 89));
    assert(bytes.subrange(3, 90).last() == bytes[89]);
    assert(bytes[89] == report.checksum);
    let c = report.checksum;
    assert(c ^ c == 0) by (bit_vector);
}

/// A request in one transaction has one report: what is sent again to a busy device is what was
/// sent before.
pub proof fn lemma_request_report_unique(
    a: Report,
    b: Report,
    request: Request,
    transaction_id: u8,
)
    requires
        is_request_report(a, request, transaction_id),
        is_request_report(b, request, transaction_id),
    ensures
        a == b,
{
    assert(report_bytes(a).subrange(3, 89) =~= report_bytes(b).subrange(3, 89));
    assert(report_bytes(a) =~= report_bytes(b));
    lemma_report_bytes_injective(a, b);
}

/// The number in the id of the `n`-th transaction after the one with the number `first`.
pub open spec fn transaction_number(first: u8, n: nat) -> u8 {
    ((first + n) % 31) as u8
}

/// Fewer than thirty-one transactions apart, no two have the same id, and every id keeps the bits
/// that the device wants, if those leave the lower five free.
pub proof fn lemma_transaction_ids(base: u8, first: u8, m: nat, n: nat)
    requires
        base & 0x1f == 0,
        m < n < m + 31,
    ensures
        base | transaction_number(first, m) != base | transaction_number(first, n),
        (base | transaction_number(first, m)) & 0xe0 == base,
{
    let i = transaction_number(first, m);
    let j = transaction_number(first, n);
    assert(i != j);
    assert(base & 0x1f == 0 && i < 31 && j < 31 && i != j ==> base | i != base | j && (base | i)
        & 0xe0 == base) by (bit_vector);
}

/// The transaction numbers follow each other in steps of one.
pub proof fn lemma_transaction_number_step(first: u8, n: nat)
    ensures
        transaction_number(first, n + 1) == (transaction_number(first, n) + 1) % 31,
{
}

/// Where each field of a report goes over the wire.
pub proof fn lemma_report_layout(report: Report)
    ensures
        report_bytes(report).len() == 91,
        report_bytes(report)[0] == report.report_id,
        report_bytes(report)[1] == report.status,
        report_bytes(report)[2] == report.transaction_id,
        forall|i: int|
            0 <= i < 3 ==> report_bytes(report)[3 + i] == #[trigger] report.reserved1@[i],
        report_bytes(report)[6] == report.data_len,
        report_bytes(report)[7] == report.command_class,
        report_bytes(report)[8] == report.command_id,
        forall|i: int| 0 <= i < 80 ==> report_bytes(report)[9 + i] == #[trigger] report.data@[i],
        report_bytes(report)[89] == report.checksum,
        report_bytes(report)[90] == report.reserved2,
{
}

/// The exclusive or of bytes: none of them gives zero, one gives itself, and two strings give what
/// they give one by one. So a byte that occurs twice cancels, wherever it stands.
pub proof fn lemma_xor_all(a: Seq<u8>, b: Seq<u8>, byte: u8)
    ensures
        xor_all(Seq::empty()) == 0,
        xor_all(seq![byte]) == byte,
        xor_all(a + b) == xor_all(a) ^ xor_all(b),
    decreases b.len(),
{
    assert(seq![byte].drop_last() =~= Seq::empty());
    assert(seq![byte].last() == byte);
    reveal_with_fuel(xor_all, 2);
    assert(xor_all(seq![byte]) == 0u8 ^ byte);
    assert(0u8 ^ byte == byte) by (bit_vector);
    let x = xor_all(a);
    if b.len() == 0 {
        assert(a + b =~= a);
        assert(x ^ 0 == x) by (bit_vector);
    } else {
        lemma_xor_all(a, b.drop_last(), byte);
        assert((a + b).drop_last() =~= a + b.drop_last());
        assert((a + b).last() == b.last());
        let y = xor_all(b.drop_last());
        let z = b.last();
        assert((x ^ y) ^ z == x ^ (y ^ z)) by (bit_vector);
    }
}

/// A request asks for the one command, and has all of its data at the front and zeros after it.
pub proof fn lemma_request_asks(
    request: Request,
    command_class: u8,
    command_id: u8,
    data_len: u8,
    data: Seq<u8>,
)
    requires
        is_request(request, command_class, command_id, data_len, data),
        data.len() <= 80,
    ensures
        request.command_class == command_class,
        request.command_id == command_id,
        request.data_len == data_len,
        forall|i: int| 0 <= i < data.len() ==> #[trigger] request.data@[i] == data[i],
        forall|i: int| data.len() <= i < 80 ==> #[trigger] request.data@[i] == 0,
{
}

/// What is sent carries the request whole, byte for byte, in its own transaction, and nothing else;
/// and the exclusive or over all bytes but those of the id, the status, the transaction and the end
/// is zero.
pub proof fn lemma_sent_report(report: Report, request: Request, transaction_id: u8)
    requires
        is_request_report(report, request, transaction_id),
    ensures
        ({
            let bytes = report_bytes(report);
            &&& bytes.len() == 91
            &&& bytes[0] == 0
            &&& bytes[1] == 0
            &&& bytes[2] == transaction_id
            &&& bytes[3] == 0
            &&& bytes[4] == 0
            &&& bytes[5] == 0
            &&& bytes[6] == request.data_len
            &&& bytes[7] == request.command_class
            &&& bytes[8] == request.command_id
            &&& forall|i: int| 0 <= i < 80 ==> bytes[9 + i] == #[trigger] request.data@[i]
            &&& bytes[89] == xor_all(bytes.subrange(3, 89))
            &&& bytes[90] == 0
        }),
{
    lemma_report_layout(report);
    let bytes = report_bytes(report);
    assert(report.reserved1@[0] == 0 && report.reserved1@[1] == 0 && report.reserved1@[2] == 0);
    assert(bytes[3] == report.reserved1@[0] && bytes[4] == report.reserved1@[1] && bytes[5]
        == report.reserved1@[2]);
    assert forall|i: int| 0 <= i < 80 implies bytes[9 + i] == #[trigger] request.data@[i] by {
        assert(report.data@[i] == request.data@[i]);
    }
}

} // verus!
