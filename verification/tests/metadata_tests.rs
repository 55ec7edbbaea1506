use flare::metadata::{CSVDesc, Metadata, TableDesc};
use flare::row::DataType;

fn lines(text: &[&str]) -> Vec<String> {
    text.iter().map(|s| s.to_string()).collect()
}

#[test]
fn test() {
    println!("Hello");
}

#[test]
fn infer_datatype_follows_the_rule() {
    assert_eq!(CSVDesc::infer_datatype(&"12".to_string()), DataType::INT);
    assert_eq!(CSVDesc::infer_datatype(&"-7".to_string()), DataType::INT);
    assert_eq!(CSVDesc::infer_datatype(&"+7".to_string()), DataType::INT);
    assert_eq!(CSVDesc::infer_datatype(&"2147483648".to_string()), DataType::INT);
    assert_eq!(CSVDesc::infer_datatype(&"3000000000".to_string()), DataType::INT);
    assert_eq!(CSVDesc::infer_datatype(&"9223372036854775807".to_string()), DataType::INT);
    assert_eq!(CSVDesc::infer_datatype(&"-9223372036854775808".to_string()), DataType::INT);
    assert_eq!(CSVDesc::infer_datatype(&"9223372036854775808".to_string()), DataType::STR);
    assert_eq!(CSVDesc::infer_datatype(&"-9223372036854775809".to_string()), DataType::STR);
    assert_eq!(CSVDesc::infer_datatype(&"true".to_string()), DataType::BOOL);
    assert_eq!(CSVDesc::infer_datatype(&"false".to_string()), DataType::BOOL);
    assert_eq!(CSVDesc::infer_datatype(&"TRUE".to_string()), DataType::STR);
    assert_eq!(CSVDesc::infer_datatype(&"".to_string()), DataType::STR);
    assert_eq!(CSVDesc::infer_datatype(&"-".to_string()), DataType::STR);
    assert_eq!(CSVDesc::infer_datatype(&"1x".to_string()), DataType::STR);
}

#[test]
fn infer_metadata_with_header() {
    let cols = CSVDesc::infer_metadata(&lines(&["name,age,dept_id,ok", "a,20,1,true", "b,,2,false", "c,25,1,true"]), ',', true);
    assert_eq!(cols.len(), 4);
    assert_eq!(cols[0].name, "NAME");
    assert_eq!(cols[0].datatype, DataType::STR);
    assert_eq!(cols[1].name, "AGE");
    assert_eq!(cols[1].datatype, DataType::INT);
    assert_eq!(cols[2].colid, 2);
    assert_eq!(cols[2].datatype, DataType::INT);
    assert_eq!(cols[3].name, "OK");
    assert_eq!(cols[3].datatype, DataType::BOOL);
}

#[test]
fn infer_metadata_without_header_names_columns_by_position() {
    let cols = CSVDesc::infer_metadata(&lines(&["x|1", "y|2", "z|q"]), '|', false);
    assert_eq!(cols.len(), 2);
    assert_eq!(cols[0].name, "COL_0");
    assert_eq!(cols[1].name, "COL_1");
    assert_eq!(cols[0].datatype, DataType::STR);
    assert_eq!(cols[1].datatype, DataType::STR);
}

#[test]
fn infer_metadata_of_short_files_is_empty() {
    assert_eq!(CSVDesc::infer_metadata(&lines(&[]), ',', true).len(), 0);
    assert_eq!(CSVDesc::infer_metadata(&lines(&["a,b"]), ',', true).len(), 0);
}

#[test]
fn catalog_table_and_lookup() {
    let mut catalog = Metadata::new();
    let options = vec![
        ("TYPE".to_string(), "CSV".to_string()),
        ("PATH".to_string(), "/data/emp.csv".to_string()),
        ("HEADER".to_string(), "YES".to_string()),
        ("SEPARATOR".to_string(), "|".to_string()),
    ];
    let sample = lines(&["name|age", "a|20"]);
    assert_eq!(catalog.catalog_table("emp".to_string(), options.clone(), &sample), Ok(()));
    let desc = catalog.get_tabledesc(&"Emp".to_string()).unwrap();
    assert_eq!(desc.filename(), "/data/emp.csv");
    assert!(desc.header());
    assert_eq!(desc.separator(), '|');
    assert_eq!(desc.columns().len(), 2);
    assert_eq!(desc.get_column(&"AGE".to_string()).unwrap().colid, 1);
    assert!(desc.get_column(&"age".to_string()).is_none());
    assert_eq!(desc.describe(), "Type: CSV, /data/emp.csv");
    let again = catalog.catalog_table("EMP".to_string(), options, &sample);
    assert_eq!(again, Err("Table EMP cannot be cataloged more than once.".to_string()));
    assert!(catalog.get_tabledesc(&"dept".to_string()).is_none());
}

#[test]
fn catalog_table_rejects_missing_options() {
    let mut catalog = Metadata::new();
    let sample = lines(&["a", "1"]);
    let no_type = vec![("PATH".to_string(), "x".to_string())];
    assert_eq!(
        catalog.catalog_table("t".to_string(), no_type, &sample),
        Err("Table T has no supported TYPE.".to_string())
    );
    let no_path = vec![("TYPE".to_string(), "CSV".to_string())];
    assert_eq!(catalog.catalog_table("t".to_string(), no_path, &sample), Err("Table T has no PATH.".to_string()));
    // The last value of a repeated option counts; a long separator falls back to the comma.
    let options = vec![
        ("TYPE".to_string(), "JSON".to_string()),
        ("TYPE".to_string(), "CSV".to_string()),
        ("PATH".to_string(), "p".to_string()),
        ("SEPARATOR".to_string(), "ab".to_string()),
    ];
    assert_eq!(catalog.catalog_table("t".to_string(), options, &sample), Ok(()));
    let desc = catalog.get_tabledesc(&"T".to_string()).unwrap();
    assert_eq!(desc.separator(), ',');
    assert!(!desc.header());
}

#[test]
fn a_column_of_wide_integers_is_an_integer_column() {
    let cols = CSVDesc::infer_metadata(&lines(&["id,n", "3000000000,1", ",2", "-9223372036854775808,x"]), ',', true);
    assert_eq!(cols[0].datatype, DataType::INT);
    assert_eq!(cols[1].datatype, DataType::STR);
    let cols = CSVDesc::infer_metadata(&lines(&["id", "3000000000"]), ',', true);
    assert_eq!(cols[0].datatype, DataType::INT);
    let cols = CSVDesc::infer_metadata(&lines(&["id", "9223372036854775808"]), ',', true);
    assert_eq!(cols[0].datatype, DataType::STR);
}

#[test]
fn the_file_to_read_is_decided_before_anything_is_read() {
    let mut catalog = Metadata::new();
    let options = vec![("TYPE".to_string(), "CSV".to_string()), ("PATH".to_string(), "/data/emp.csv".to_string())];
    assert_eq!(catalog.table_path(&"emp".to_string(), &options), Ok("/data/emp.csv".to_string()));
    assert_eq!(catalog.catalog_table("emp".to_string(), options.clone(), &lines(&["a", "1"])), Ok(()));
    // A name that is taken is reported first, whatever the options say.
    let taken = Err("Table EMP cannot be cataloged more than once.".to_string());
    assert_eq!(catalog.table_path(&"Emp".to_string(), &options), taken);
    assert_eq!(catalog.table_path(&"emp".to_string(), &vec![]), taken);
    assert_eq!(catalog.table_path(&"dept".to_string(), &vec![]), Err("Table DEPT has no supported TYPE.".to_string()));
    let no_path = vec![("TYPE".to_string(), "CSV".to_string())];
    assert_eq!(catalog.table_path(&"dept".to_string(), &no_path), Err("Table DEPT has no PATH.".to_string()));
}
