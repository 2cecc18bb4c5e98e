use evm_contract_exporter::multicall::{
    check_multicall_address, chunk_count, chunk_ranges, multicall_address, request_calls, AddressRequired, Batches, MulticallAddressError,
    CallRequest, CallResult, ChunkError,
};

#[test]
fn chunk_boundaries() {
    assert_eq!(chunk_ranges(0, 500), Vec::<(usize, usize)>::new());
    assert_eq!(chunk_ranges(3, 500), vec![(0, 3)]);
    assert_eq!(chunk_ranges(5, 2), vec![(0, 2), (2, 4), (4, 5)]);
    assert_eq!(chunk_ranges(4, 0), vec![(0, 4)]);
}

#[test]
fn chunks_are_as_many_as_counted() {
    for len in 0..20 {
        for max in 0..25 {
            assert_eq!(chunk_ranges(len, max).len(), chunk_count(len, max));
        }
    }
    assert_eq!(
        chunk_ranges(usize::MAX, usize::MAX - 1),
        vec![(0, usize::MAX - 1), (usize::MAX - 1, usize::MAX)]
    );
}

fn result(n: u8) -> CallResult {
    CallResult {
        success: n % 2 == 0,
        return_data: vec![n],
    }
}

fn request(n: u8) -> CallRequest {
    CallRequest {
        target: [n; 20],
        call_data: vec![n, n],
    }
}

#[test]
fn returns_results_in_order() {
    let reqs: Vec<CallRequest> = (0..5).map(request).collect();
    let mut batches = Batches::new(reqs.len(), 2);
    let mut sent = Vec::new();
    while let Some((start, end)) = batches.next_range() {
        let calls = request_calls(&reqs, start, end);
        assert!(calls.iter().all(|c| c.allow_failure));
        sent.extend(calls.iter().map(|c| c.call_data.clone()));
        let chunk = calls.iter().map(|c| result(c.target[0])).collect();
        batches = batches.accept(chunk).expect("chunk");
    }
    let out = batches.finish();
    assert_eq!(out.len(), 5);
    for (i, r) in out.iter().enumerate() {
        assert_eq!(r.success, i % 2 == 0);
        assert_eq!(r.return_data, vec![i as u8]);
        assert_eq!(sent[i], reqs[i].call_data);
    }
}

#[test]
fn no_calls_take_no_request() {
    let batches = Batches::new(0, 500);
    assert_eq!(batches.next_range(), None);
    assert!(batches.finish().is_empty());
}

#[test]
fn answers_of_another_length_are_refused() {
    let batches = Batches::new(3, 2).accept(vec![result(0), result(1)]).expect("first");
    let err = batches.accept(vec![]).expect_err("short");
    assert_eq!(
        err,
        ChunkError {
            start: 2,
            end: 3,
            got: 0
        }
    );
    assert_eq!(
        err.message(),
        "multicall chunk [2:3]: expected 1 results, got 0"
    );
}

#[test]
fn address_is_required() {
    assert_eq!(check_multicall_address(&[0; 20]), Err(AddressRequired));
    assert_eq!(
        AddressRequired.message(),
        "multicall: multicall3 address is required"
    );
    let mut address = [0u8; 20];
    address[19] = 1;
    assert_eq!(check_multicall_address(&address), Ok(()));
}

#[test]
fn multicall_addresses_are_read() {
    let a = multicall_address("0xcA11bde05977b3631167028862bE2a173976CA11").expect("address");
    assert_eq!((a[0], a[1], a[19]), (0xca, 0x11, 0x11));
    let zero = "0x0000000000000000000000000000000000000000";
    let err = multicall_address(zero).expect_err("zero");
    assert!(matches!(err, MulticallAddressError::Required(AddressRequired)));
    assert_eq!(err.message(), "multicall: multicall3 address is required");
    let err = multicall_address("0x01").expect_err("short");
    assert!(matches!(err, MulticallAddressError::Invalid { .. }));
    assert!(err.message().starts_with("parse multicall3_address: "));
}
