use csv::{ReaderBuilder, Trim};
use yasa::sweep::{layout, Band, SweepLayout};

fn band(freq_low: u64, freq_high: u64) -> Band {
    Band { freq_low, freq_high }
}

#[test]
fn test_read_csv() {
    let csv = "\
        2024-02-03, 14:11:38, 144000000, 145000000, 976.56, 2, -10.0, -11.0
        2024-02-03, 14:11:48, 145000000, 146000000, 976.56, 2, -20.0, -21.0
        2024-02-03, 14:12:38, 144000000, 145000000, 976.56, 2, -30.0, -31.0
        2024-02-03, 14:12:48, 145000000, 146000000, 976.56, 2, -40.0, -41.0
    ";
    let mut reader = ReaderBuilder::new()
        .has_headers(false)
        .trim(Trim::All)
        .from_reader(csv.as_bytes());
    let mut records = Vec::new();
    let mut steps = Vec::new();
    for record in reader.records().flatten() {
        let freq_low: u64 = record.get(2).unwrap().parse().unwrap();
        let freq_high: u64 = record.get(3).unwrap().parse().unwrap();
        let freq_step: f32 = record.get(4).unwrap().parse().unwrap();
        records.push(band(freq_low, freq_high));
        steps.push(freq_step);
    }
    let df = layout(&records);

    assert_eq!(df.freq_low, 144_000_000);
    assert_eq!(df.freq_high, 146_000_000);
    assert_eq!(steps[0], 976.56);
    assert_eq!(df.sweep_steps, 2);
    assert_eq!(records.len(), 4);
}

#[test]
fn sweep_without_lines() {
    assert_eq!(layout(&[]), SweepLayout { freq_low: 0, freq_high: 0, sweep_steps: 1 });
}

#[test]
fn sweep_of_one_line() {
    assert_eq!(
        layout(&[band(144_000_000, 145_000_000)]),
        SweepLayout { freq_low: 144_000_000, freq_high: 145_000_000, sweep_steps: 1 }
    );
}

#[test]
fn sweep_that_never_repeats() {
    let lines = [band(1, 2), band(2, 3), band(3, 4)];
    assert_eq!(layout(&lines), SweepLayout { freq_low: 1, freq_high: 4, sweep_steps: 3 });
}

#[test]
fn sweep_ends_at_the_first_line_that_does_not_rise() {
    let lines = [band(5, 6), band(6, 7), band(5, 9), band(8, 10)];
    assert_eq!(layout(&lines), SweepLayout { freq_low: 5, freq_high: 7, sweep_steps: 2 });
    let lines = [band(5, 6), band(4, 7), band(9, 10)];
    assert_eq!(layout(&lines), SweepLayout { freq_low: 5, freq_high: 6, sweep_steps: 1 });
}
