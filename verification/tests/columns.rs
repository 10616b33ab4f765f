use fairchild_core::decimal::{parse_usize, push_decimal};
use fairchild_core::photonic::spectrum::parse_pair_column;

#[test]
fn pair_column_rejects_index_outside_port_count() {
    let err = parse_pair_column("t_0_4_db", 2).unwrap_err();
    assert!(err.contains("2×2"), "{err}");
    assert_eq!(
        err,
        "column 't_0_4_…' is outside the 2×2 port range implied by the netlist"
    );
}

#[test]
fn pair_column_magnitude_and_phase() {
    assert_eq!(parse_pair_column("t_0_0_db", 1), Ok(Some((0, false))));
    assert_eq!(parse_pair_column("t_1_0_deg", 2), Ok(Some((2, true))));
    assert_eq!(parse_pair_column("t_2_3_db", 4), Ok(Some((11, false))));
    assert_eq!(parse_pair_column("t_+1_+1_deg", 2), Ok(Some((3, true))));
    assert_eq!(parse_pair_column("t_10_12_db", 13), Ok(Some((142, false))));
}

#[test]
fn pair_column_ignores_other_headers() {
    assert_eq!(parse_pair_column("wavelength_nm", 2), Ok(None));
    assert_eq!(parse_pair_column("t_0_0_rad", 2), Ok(None));
    assert_eq!(parse_pair_column("t_0_0", 2), Ok(None));
    assert_eq!(parse_pair_column("t_0_0_db_x", 2), Ok(None));
    assert_eq!(parse_pair_column("t_a_0_db", 2), Ok(None));
    assert_eq!(parse_pair_column("t__0_db", 2), Ok(None));
    assert_eq!(parse_pair_column("t_-1_0_db", 2), Ok(None));
    assert_eq!(parse_pair_column("", 2), Ok(None));
    assert_eq!(parse_pair_column("T_0_0_db", 2), Ok(None));
}

#[test]
fn pair_column_out_of_range_row_index() {
    assert_eq!(
        parse_pair_column("t_3_0_deg", 3),
        Err("column 't_3_0_…' is outside the 3×3 port range implied by the netlist".to_string())
    );
}

#[test]
fn decimal_round_trip() {
    for x in [0usize, 7, 10, 99, 1234567, usize::MAX] {
        let mut s = String::new();
        push_decimal(&mut s, x);
        assert_eq!(s, x.to_string());
        let c: Vec<char> = s.chars().collect();
        assert_eq!(parse_usize(&c, 0, c.len()), Some(x));
    }
}

#[test]
fn parse_usize_follows_std() {
    for s in ["", "+", "+5", "12", "1a", "-3", "007", "18446744073709551616", " 1"] {
        let c: Vec<char> = s.chars().collect();
        assert_eq!(parse_usize(&c, 0, c.len()), s.parse::<usize>().ok(), "{s:?}");
    }
    let c: Vec<char> = "x42y".chars().collect();
    assert_eq!(parse_usize(&c, 1, 3), Some(42));
}

use fairchild_core::photonic::table::{is_wavelength_column, split_ranges, table_columns, table_layout_of, table_lines};

fn s(c: &[char]) -> String {
    c.iter().collect()
}

#[test]
fn table_rejects_a_pair_index_outside_the_netlist_port_count() {
    let csv = "wavelength_nm,t_0_4_db\n1550.0,-3.0\n1551.0,-3.0\n";
    let err = table_layout_of(csv, 2).unwrap_err();
    assert!(err.contains("2×2"), "{err}");
}

#[test]
fn table_layout_skips_comments_and_blank_lines() {
    let csv = "# measured\n\n  Wavelength_nm , t_0_0_db, note ,t_0_0_deg\r\n* aside\n1550.0,-3.0,x,179.0\r\n   \n1551.0,-3.0,y,-179.0\n";
    let (cols, rows) = table_layout_of(csv, 1).unwrap();
    assert_eq!(cols, vec![None, Some((0, false)), None, Some((0, true))]);
    let rows: Vec<String> = rows.iter().map(|r| s(r)).collect();
    assert_eq!(rows, vec!["1550.0,-3.0,x,179.0".to_string(), "1551.0,-3.0,y,-179.0".to_string()]);
}

#[test]
fn table_needs_a_header() {
    assert_eq!(table_layout_of("", 2).unwrap_err(), "empty S-parameter file");
    assert_eq!(table_layout_of("# only a comment\n\n", 2).unwrap_err(), "empty S-parameter file");
}

#[test]
fn table_first_column_must_be_the_wavelength() {
    let h: Vec<char> = " freq ,t_0_0_db".chars().collect();
    assert_eq!(
        table_columns(&h, 1).unwrap_err(),
        "first column must be wavelength_nm; got 'freq'"
    );
    let h: Vec<char> = "LAMBDA_m,t_1_1_db".chars().collect();
    assert_eq!(table_columns(&h, 2).unwrap(), vec![None, Some((3, false))]);
}

#[test]
fn table_lines_trim_and_filter() {
    let lines = table_lines("a\n  b  \n#c\n*d\n\ne");
    let lines: Vec<String> = lines.iter().map(|l| s(l)).collect();
    assert_eq!(lines, vec!["a", "b", "e"]);
}

#[test]
fn split_ranges_follow_str_split() {
    for text in ["", "a", "a,b", ",", "a,,b,", "x,y,z"] {
        let c: Vec<char> = text.chars().collect();
        let got: Vec<String> = split_ranges(&c, 0, ',').iter().map(|&(a, b)| s(&c[a..b])).collect();
        let want: Vec<String> = text.split(',').map(|p| p.to_string()).collect();
        assert_eq!(got, want, "{text:?}");
    }
}

#[test]
fn wavelength_column_names() {
    assert!(is_wavelength_column(&"wavelength_nm".to_string()));
    assert!(is_wavelength_column(&"lambda".to_string()));
    assert!(!is_wavelength_column(&"lambd".to_string()));
    assert!(!is_wavelength_column(&"Wavelength".to_string()));
}
