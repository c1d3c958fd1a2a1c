use ip2region2::config::{default_xdb_candidate, DEFAULT_CANDIDATES};
use ip2region2::{default_detect_xdb_file, searcher_init, CachePolicy, SearchError, Searcher};

const FUZHOU: &str = "China|0|Fujian|Fuzhou|ISP";

/// A buffer of header, vector index, the records in the order given and
/// their payloads. Every record lies within one cell.
fn xdb_of(records: &[(u32, u32, &str)]) -> Vec<u8> {
    let segments_at = 256 + 524288;
    let mut buffer = vec![0u8; segments_at + records.len() * 14];
    for (i, (start, end, text)) in records.iter().enumerate() {
        let data_ptr = buffer.len() as u32;
        buffer.extend_from_slice(text.as_bytes());
        let at = segments_at + i * 14;
        buffer[at..at + 4].copy_from_slice(&start.to_le_bytes());
        buffer[at + 4..at + 8].copy_from_slice(&end.to_le_bytes());
        buffer[at + 8..at + 10].copy_from_slice(&(text.len() as u16).to_le_bytes());
        buffer[at + 10..at + 14].copy_from_slice(&data_ptr.to_le_bytes());
        let cell = 256 + 8 * (*start >> 16) as usize;
        if buffer[cell..cell + 4] == [0, 0, 0, 0] {
            buffer[cell..cell + 4].copy_from_slice(&(at as u32).to_le_bytes());
        }
        buffer[cell + 4..cell + 8].copy_from_slice(&(at as u32 + 14).to_le_bytes());
    }
    buffer
}

fn fuzhou_file() -> Vec<u8> {
    xdb_of(&[(16777216, 16777471, FUZHOU)])
}

/// The layout of `fuzhou_file`, with another payload of the same length.
fn xiamen_file() -> Vec<u8> {
    xdb_of(&[(16777216, 16777471, "China|0|Fujian|Xiamen|ISP")])
}

/// Another layout: the record of 1.0.0.x comes second.
fn shifted_file() -> Vec<u8> {
    xdb_of(&[(0, 255, "Reserved|0|0|0|0"), (16777216, 16777471, "China|0|Fujian|Putian|ISP")])
}

#[test]
fn policy_codes() {
    assert_eq!(CachePolicy::Never.code(), 1);
    assert_eq!(CachePolicy::VecIndex.code(), 2);
    assert_eq!(CachePolicy::Full.code(), 3);
    assert_eq!(CachePolicy::from_code(1), Some(CachePolicy::Never));
    assert_eq!(CachePolicy::from_code(2), Some(CachePolicy::VecIndex));
    assert_eq!(CachePolicy::from_code(3), Some(CachePolicy::Full));
    assert_eq!(CachePolicy::from_code(0), None);
    assert_eq!(CachePolicy::from_code(4), None);
    assert_eq!(CachePolicy::from_code(255), None);
}

#[test]
fn policy_codes_round_trip() {
    for policy in [CachePolicy::Never, CachePolicy::VecIndex, CachePolicy::Full] {
        assert_eq!(CachePolicy::from_code(policy.code()), Some(policy));
    }
}

#[test]
fn default_policy_is_full() {
    assert_eq!(CachePolicy::default(), CachePolicy::Full);
}

#[test]
fn default_candidates_climb_one_directory_each() {
    assert_eq!(DEFAULT_CANDIDATES, 3);
    assert_eq!(default_xdb_candidate(1), "../data/ip2region.xdb");
    assert_eq!(default_xdb_candidate(2), "../../data/ip2region.xdb");
    assert_eq!(default_xdb_candidate(3), "../../../data/ip2region.xdb");
    assert_eq!(default_xdb_candidate(0), "data/ip2region.xdb");
}

#[test]
fn nearest_default_candidate_is_detected() {
    assert_eq!(default_detect_xdb_file(&[true, true, true]), Ok("../data/ip2region.xdb".to_string()));
    assert_eq!(default_detect_xdb_file(&[true]), Ok("../data/ip2region.xdb".to_string()));
    assert_eq!(
        default_detect_xdb_file(&[false, true, false]),
        Ok("../../data/ip2region.xdb".to_string())
    );
    assert_eq!(
        default_detect_xdb_file(&[false, false, true]),
        Ok("../../../data/ip2region.xdb".to_string())
    );
}

#[test]
fn no_default_candidate_is_a_configuration_error() {
    assert_eq!(default_detect_xdb_file(&[false, false, false]), Err(SearchError::ConfigurationError));
    assert_eq!(default_detect_xdb_file(&[]), Err(SearchError::ConfigurationError));
    assert_eq!(default_detect_xdb_file(&[false]), Err(SearchError::ConfigurationError));
    // a fourth location is never tried
    assert_eq!(
        default_detect_xdb_file(&[false, false, false, true]),
        Err(SearchError::ConfigurationError)
    );
}

#[test]
fn init_takes_the_path_and_policy_that_are_given() {
    let config =
        searcher_init(Some("/srv/ip2region.xdb".to_string()), Some(CachePolicy::Never), &[]).unwrap();
    assert_eq!(config.xdb_filepath, "/srv/ip2region.xdb");
    assert_eq!(config.cache_policy, CachePolicy::Never);
    let config = searcher_init(Some("a.xdb".to_string()), Some(CachePolicy::VecIndex), &[true])
        .unwrap();
    assert_eq!(config.xdb_filepath, "a.xdb");
    assert_eq!(config.cache_policy, CachePolicy::VecIndex);
}

#[test]
fn init_defaults_to_the_detected_path_and_full() {
    let config = searcher_init(None, None, &[false, true, true]).unwrap();
    assert_eq!(config.xdb_filepath, "../../data/ip2region.xdb");
    assert_eq!(config.cache_policy, CachePolicy::Full);
    let config = searcher_init(Some("b.xdb".to_string()), None, &[]).unwrap();
    assert_eq!(config.cache_policy, CachePolicy::Full);
}

#[test]
fn init_without_any_path_is_a_configuration_error() {
    let r = searcher_init(None, Some(CachePolicy::Full), &[false, false, false]);
    assert_eq!(r.err(), Some(SearchError::ConfigurationError));
    let r = searcher_init(None, None, &[]);
    assert_eq!(r.err(), Some(SearchError::ConfigurationError));
}

#[test]
fn new_searcher_has_retained_nothing() {
    for policy in [CachePolicy::Never, CachePolicy::VecIndex, CachePolicy::Full] {
        let searcher = Searcher::new(policy);
        assert_eq!(searcher.policy(), policy);
        assert!(searcher.needs_file());
        assert!(searcher.get_full_cache().is_none());
    }
}

#[test]
fn query_without_the_file_it_needs_is_an_io_error() {
    for policy in [CachePolicy::Never, CachePolicy::VecIndex, CachePolicy::Full] {
        let mut searcher = Searcher::new(policy);
        assert_eq!(searcher.search(None, "1.0.0.5"), Err(SearchError::IoError));
        assert!(searcher.needs_file());
    }
}

#[test]
fn full_policy_retains_the_first_file() {
    let mut searcher = Searcher::new(CachePolicy::Full);
    assert_eq!(searcher.search(Some(fuzhou_file()), "1.0.0.5"), Ok(FUZHOU.to_string()));
    assert!(!searcher.needs_file());
    assert_eq!(searcher.get_full_cache(), Some(&fuzhou_file()));
    // no file is needed any more
    assert_eq!(searcher.search(None, "1.0.0.5"), Ok(FUZHOU.to_string()));
    assert_eq!(searcher.search(None, 16777471u32), Ok(FUZHOU.to_string()));
    // and one that is handed in later is not looked at
    assert_eq!(searcher.search(Some(xiamen_file()), "1.0.0.5"), Ok(FUZHOU.to_string()));
    assert_eq!(searcher.search(Some(Vec::new()), "1.0.0.5"), Ok(FUZHOU.to_string()));
    assert_eq!(searcher.get_full_cache(), Some(&fuzhou_file()));
}

#[test]
fn full_policy_reads_once_over_many_queries() {
    let mut searcher = Searcher::new(CachePolicy::Full);
    let mut reads = 0;
    for ip in 16777216u32..16777316 {
        let loaded = if searcher.needs_file() {
            reads += 1;
            Some(fuzhou_file())
        } else {
            None
        };
        assert_eq!(searcher.search(loaded, ip), Ok(FUZHOU.to_string()));
    }
    assert_eq!(reads, 1);
}

#[test]
fn never_policy_reads_for_every_query() {
    let mut searcher = Searcher::new(CachePolicy::Never);
    let mut reads = 0;
    for ip in 16777216u32..16777226 {
        let loaded = if searcher.needs_file() {
            reads += 1;
            Some(fuzhou_file())
        } else {
            None
        };
        assert_eq!(searcher.search(loaded, ip), Ok(FUZHOU.to_string()));
    }
    assert_eq!(reads, 10);
}

#[test]
fn never_policy_answers_from_the_file_of_the_query() {
    let mut searcher = Searcher::new(CachePolicy::Never);
    assert_eq!(searcher.search(Some(fuzhou_file()), "1.0.0.5"), Ok(FUZHOU.to_string()));
    assert!(searcher.needs_file());
    assert!(searcher.get_full_cache().is_none());
    assert_eq!(
        searcher.search(Some(xiamen_file()), "1.0.0.5"),
        Ok("China|0|Fujian|Xiamen|ISP".to_string())
    );
    assert_eq!(
        searcher.search(Some(shifted_file()), "1.0.0.5"),
        Ok("China|0|Fujian|Putian|ISP".to_string())
    );
    assert_eq!(searcher.search(Some(Vec::new()), "1.0.0.5"), Err(SearchError::DataError));
    assert_eq!(searcher.search(None, "1.0.0.5"), Err(SearchError::IoError));
}

#[test]
fn vec_index_policy_retains_the_first_vector_index() {
    let mut searcher = Searcher::new(CachePolicy::VecIndex);
    assert_eq!(searcher.search(Some(fuzhou_file()), "1.0.0.5"), Ok(FUZHOU.to_string()));
    // the file is still needed for the records and the payloads
    assert!(searcher.needs_file());
    assert!(searcher.get_full_cache().is_none());
    assert_eq!(searcher.search(None, "1.0.0.5"), Err(SearchError::IoError));
    // records and payload come from the file of the query
    assert_eq!(
        searcher.search(Some(xiamen_file()), "1.0.0.5"),
        Ok("China|0|Fujian|Xiamen|ISP".to_string())
    );
    // the cell comes from the retained index: in the other layout it
    // points at the record of 0.0.0.x
    assert_eq!(searcher.search(Some(shifted_file()), "1.0.0.5"), Err(SearchError::NotFound));
    let mut fresh = Searcher::new(CachePolicy::VecIndex);
    assert_eq!(
        fresh.search(Some(shifted_file()), "1.0.0.5"),
        Ok("China|0|Fujian|Putian|ISP".to_string())
    );
}

#[test]
fn vec_index_policy_retains_nothing_of_a_short_file() {
    let mut searcher = Searcher::new(CachePolicy::VecIndex);
    assert_eq!(searcher.search(Some(vec![0u8; 1000]), "1.0.0.5"), Err(SearchError::DataError));
    assert_eq!(
        searcher.search(Some(shifted_file()), "1.0.0.5"),
        Ok("China|0|Fujian|Putian|ISP".to_string())
    );
}

#[test]
fn full_policy_retains_a_malformed_file_too() {
    let mut searcher = Searcher::new(CachePolicy::Full);
    assert_eq!(searcher.search(Some(vec![0u8; 1000]), "1.0.0.5"), Err(SearchError::DataError));
    assert!(!searcher.needs_file());
    assert_eq!(searcher.search(Some(fuzhou_file()), "1.0.0.5"), Err(SearchError::DataError));
}

#[test]
fn malformed_address_leaves_the_searcher_as_it_was() {
    let mut searcher = Searcher::new(CachePolicy::Full);
    assert_eq!(
        searcher.search(Some(xiamen_file()), "999.999.999.999"),
        Err(SearchError::InvalidIpFormat)
    );
    assert_eq!(searcher.search(Some(xiamen_file()), "-1"), Err(SearchError::InvalidIpFormat));
    assert!(searcher.needs_file());
    assert_eq!(searcher.search(Some(fuzhou_file()), "1.0.0.5"), Ok(FUZHOU.to_string()));
    assert_eq!(searcher.search(None, "-1"), Err(SearchError::InvalidIpFormat));
    assert_eq!(searcher.search(None, "1.0.0.5"), Ok(FUZHOU.to_string()));
}

#[test]
fn repeated_queries_return_the_same_answer() {
    for policy in [CachePolicy::Never, CachePolicy::VecIndex, CachePolicy::Full] {
        let mut searcher = Searcher::new(policy);
        let first = searcher.search(Some(shifted_file()), "0.0.0.7");
        assert_eq!(first, Ok("Reserved|0|0|0|0".to_string()));
        for _ in 0..5 {
            assert_eq!(searcher.search(Some(shifted_file()), "0.0.0.7"), first);
        }
        let missing = searcher.search(Some(shifted_file()), "7.7.7.7");
        assert_eq!(missing, Err(SearchError::NotFound));
        assert_eq!(searcher.search(Some(shifted_file()), "7.7.7.7"), missing);
    }
}

#[test]
fn every_error_says_what_went_wrong() {
    assert_eq!(SearchError::NotFound.message(), "not matched");
    assert_eq!(
        SearchError::ConfigurationError.message(),
        "default filepath not find the xdb file, so you must set xdb_filepath"
    );
    assert_eq!(SearchError::IoError.message(), "the xdb file could not be read");
    assert_eq!(SearchError::InvalidIpFormat.message(), "not a dotted or decimal IPv4 address");
    assert_eq!(SearchError::DataError.message(), "the xdb data is malformed");
}

/// Two callers share one `Full` searcher; their queries reach it one after
/// the other, and the file is read for the first of them only.
#[test]
fn test_multi_thread_only_load_xdb_once() {
    let file = || xdb_of(&[(16843008, 16843263, "one"), (33686016, 33686271, "two")]);
    let mut searcher = Searcher::new(CachePolicy::Full);
    let mut loads = 0;
    let mut query = |ip: &str| {
        let loaded = if searcher.needs_file() {
            loads += 1;
            Some(file())
        } else {
            None
        };
        searcher.search(loaded, ip).unwrap()
    };
    let result = query("2.2.2.2");
    println!("ip search of the first caller: {result}");
    assert_eq!(result, "two");
    let r = query("1.1.1.1");
    println!("ip search of the second caller: {r}");
    assert_eq!(r, "one");
    assert_eq!(loads, 1);
}
