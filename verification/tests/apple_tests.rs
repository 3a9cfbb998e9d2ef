use aircard::apple::{locate_support_dir, support_file_paths, verify_support};

const DIR64: &str = r"C:\Program Files\Common Files\Apple\Mobile Device Support";
const DIR32: &str = r"C:\Program Files (x86)\Common Files\Apple\Mobile Device Support";

#[test]
fn files_looked_for() {
    let files = support_file_paths();
    assert_eq!(files.len(), 6);
    assert_eq!(files[0], format!("{}\\CoreFoundation.dll", DIR64));
    assert_eq!(files[1], format!("{}\\MobileDevice.dll", DIR64));
    assert_eq!(files[2], format!("{}\\AirTrafficHost.dll", DIR64));
    assert_eq!(files[5], format!("{}\\AirTrafficHost.dll", DIR32));
}

#[test]
fn first_complete_directory_is_chosen() {
    let all = support_file_paths();
    assert_eq!(locate_support_dir(&all), Some(DIR64.to_string()));
    let only32: Vec<String> = all[3..].to_vec();
    assert_eq!(locate_support_dir(&only32), Some(DIR32.to_string()));
    let partial: Vec<String> = vec![all[0].clone(), all[1].clone(), all[5].clone()];
    assert_eq!(locate_support_dir(&partial), None);
    assert_eq!(locate_support_dir(&[]), None);
}

#[test]
fn support_report() {
    assert_eq!(
        verify_support(Ok(()), Some(DIR64)),
        Ok(format!("Apple Mobile Device Support ready: {}", DIR64))
    );
    assert_eq!(
        verify_support(Ok(()), None),
        Ok("Apple Mobile Device Support ready: ".to_string())
    );
    assert_eq!(
        verify_support(Err("缺少符号".to_string()), Some(DIR64)),
        Err("缺少符号".to_string())
    );
}
