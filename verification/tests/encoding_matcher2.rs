use std::cmp::Ordering;

use accept_encoding::encoding_matcher::{EncodingMatch, EncodingMatchType};
use accept_encoding::match_for_encoding;
use accept_encoding::q_value::QValue;

fn qv(millis: u16) -> QValue {
    QValue::from_millis(millis).unwrap()
}

#[test]
fn encoding_matcher2_test_match_for_encoding() {
    assert_eq!(
        Some(EncodingMatch {
            match_type: EncodingMatchType::Wildcard,
            q: qv(1000),
        }),
        match_for_encoding(b"*", b"gzip"),
    );

    assert_eq!(
        Some(EncodingMatch {
            match_type: EncodingMatchType::Wildcard,
            q: qv(500),
        }),
        match_for_encoding(b"*  ; q=0.5", b"gzip")
    );

    assert_eq!(
        Some(EncodingMatch {
            match_type: EncodingMatchType::Exact,
            q: qv(1000),
        }),
        match_for_encoding(b"gzip", b"gzip")
    );

    assert_eq!(
        Some(EncodingMatch {
            match_type: EncodingMatchType::Exact,
            q: qv(1000),
        }),
        match_for_encoding(b"gzip ; a=b", b"gzip")
    );

    assert_eq!(
        Some(EncodingMatch {
            match_type: EncodingMatchType::Exact,
            q: qv(800),
        }),
        match_for_encoding(b"gzip ; q=0.8", b"gzip")
    );

    assert_eq!(
        Some(EncodingMatch {
            match_type: EncodingMatchType::Exact,
            q: qv(800),
        }),
        match_for_encoding(b"x-Gzip ; q=0.8", b"gzip")
    );

    assert_eq!(None, match_for_encoding(b"br  ; q=1", b"gzip"));

    {
        let header_value = b"br  ; q=0.9 , gzip;q=0.8";
        let gzip_res = match_for_encoding(header_value, b"gzip");
        assert_eq!(
            Some(EncodingMatch {
                match_type: EncodingMatchType::Exact,
                q: qv(800),
            }),
            gzip_res
        );

        let br_res = match_for_encoding(header_value, b"br");
        assert_eq!(
            Some(EncodingMatch {
                match_type: EncodingMatchType::Exact,
                q: qv(900),
            }),
            br_res
        );

        assert!(br_res.gt(&gzip_res));
    }

    {
        let header_value = b"br , *";
        let gzip_res = match_for_encoding(header_value, b"gzip");
        assert_eq!(
            Some(EncodingMatch {
                match_type: EncodingMatchType::Wildcard,
                q: qv(1000),
            }),
            gzip_res
        );

        let br_res = match_for_encoding(header_value, b"br");
        assert_eq!(
            Some(EncodingMatch {
                match_type: EncodingMatchType::Exact,
                q: qv(1000),
            }),
            br_res
        );

        assert!(br_res.gt(&gzip_res));
    }

    {
        let header_value = b"br; q=0.9 , *";
        let gzip_res = match_for_encoding(header_value, b"gzip");
        assert_eq!(
            Some(EncodingMatch {
                match_type: EncodingMatchType::Wildcard,
                q: qv(1000),
            }),
            gzip_res
        );

        let br_res = match_for_encoding(header_value, b"br");
        assert_eq!(
            Some(EncodingMatch {
                match_type: EncodingMatchType::Exact,
                q: qv(900),
            }),
            br_res
        );

        assert!(br_res.gt(&gzip_res));
    }

    {
        let header_value = b"gzip; q =0.9";
        let gzip_res = match_for_encoding(header_value, b"gzip");
        assert_eq!(None, gzip_res);
    }

    {
        let header_value = b"gzip; q= 0.9";
        let gzip_res = match_for_encoding(header_value, b"gzip");
        assert_eq!(None, gzip_res);
    }
}

#[test]
fn encoding_matcher2_test_match_result_cmp() {
    assert_eq!(
        Ordering::Greater,
        EncodingMatch {
            match_type: EncodingMatchType::Exact,
            q: qv(1000),
        }
        .cmp(&EncodingMatch {
            match_type: EncodingMatchType::Exact,
            q: qv(900),
        })
    );

    assert_eq!(
        Ordering::Greater,
        EncodingMatch {
            match_type: EncodingMatchType::Wildcard,
            q: qv(1000),
        }
        .cmp(&EncodingMatch {
            match_type: EncodingMatchType::Wildcard,
            q: qv(900),
        })
    );

    assert_eq!(
        Ordering::Equal,
        EncodingMatch {
            match_type: EncodingMatchType::Wildcard,
            q: qv(900),
        }
        .cmp(&EncodingMatch {
            match_type: EncodingMatchType::Wildcard,
            q: qv(900),
        })
    );

    assert_eq!(
        Ordering::Equal,
        EncodingMatch {
            match_type: EncodingMatchType::Exact,
            q: qv(1000),
        }
        .cmp(&EncodingMatch {
            match_type: EncodingMatchType::Exact,
            q: qv(1000),
        })
    );

    assert_eq!(
        Ordering::Greater,
        EncodingMatch {
            match_type: EncodingMatchType::Exact,
            q: qv(1000),
        }
        .cmp(&EncodingMatch {
            match_type: EncodingMatchType::Wildcard,
            q: qv(1000),
        })
    );

    assert_eq!(
        Ordering::Less,
        EncodingMatch {
            match_type: EncodingMatchType::Wildcard,
            q: qv(1000),
        }
        .cmp(&EncodingMatch {
            match_type: EncodingMatchType::Exact,
            q: qv(900),
        })
    );
}
