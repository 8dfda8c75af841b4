use print_farm::batch::{Batch, PrintItem};
use print_farm::error::ScheduleError;
use print_farm::family::JobFamily;
use print_farm::farm::{Farm, NewBatchPolicy};
use print_farm::machine::Machine;
use print_farm::model::Dimensions;

fn family(name: &str, material: &str) -> JobFamily {
    let mut f = JobFamily::new(String::from(name));
    assert!(f.add_config_entry(String::from("material"), String::from(material)));
    f
}

#[test]
fn farm_add_test() {
    let mut farm = Farm::new();
    let machine1 = Machine::new(Dimensions(300, 200, 400));
    let machine2 = Machine::new(Dimensions(100, 150, 350));

    farm.add_machine(machine2);
    farm.add_machine(machine1);

    let job1 = PrintItem::new(
        Dimensions(200, 100, 50),
        chrono::Duration::days(3).num_milliseconds() as u64,
        chrono::Duration::minutes(70).num_milliseconds() as u64,
        JobFamily::new(String::from("Job fam 1")),
    );
    let _ = farm.add_job(job1);
    println!("{farm:#?}");
}

#[test]
fn dimensions_add_is_componentwise() {
    let d = Dimensions(1, 2, 3).add(Dimensions(10, 20, 30));
    assert_eq!(d, Dimensions(11, 22, 33));
}

#[test]
fn dimensions_fit_checks_each_axis_independently() {
    // Under a composite (lexicographic) ordering this would count as
    // "smaller"; axis by axis it does not fit.
    assert!(!Dimensions(10, 10, 500).fits(Dimensions(300, 200, 400)));
    assert!(Dimensions(300, 200, 400).fits(Dimensions(300, 200, 400)));
    assert!(!Dimensions(301, 1, 1).fits(Dimensions(300, 200, 400)));
}

#[test]
fn family_compatibility_ignores_name_and_insertion_order() {
    let mut a = JobFamily::new(String::from("A"));
    assert!(a.add_config_entry(String::from("material"), String::from("PLA")));
    assert!(a.add_config_entry(String::from("nozzle"), String::from("0.4")));
    let mut b = JobFamily::new(String::from("B"));
    assert!(b.add_config_entry(String::from("nozzle"), String::from("0.4")));
    assert!(b.add_config_entry(String::from("material"), String::from("PLA")));
    assert!(a.compatible(&b));
    assert!(b.compatible(&a));
}

#[test]
fn family_compatibility_compares_values() {
    let a = family("A", "PLA");
    let b = family("B", "ABS");
    assert!(!a.compatible(&b));
    let mut c = family("C", "PLA");
    assert!(a.compatible(&c));
    assert!(c.add_config_entry(String::from("nozzle"), String::from("0.4")));
    assert!(!a.compatible(&c));
}

#[test]
fn family_rejects_duplicate_config_key() {
    let mut a = family("A", "PLA");
    assert!(!a.add_config_entry(String::from("material"), String::from("ABS")));
    let b = family("B", "PLA");
    assert!(a.compatible(&b));
}

#[test]
fn batch_est_completion_time_is_start_plus_max_duration() {
    let mut batch = Batch::new(Dimensions(300, 300, 300), 1000);
    assert_eq!(batch.est_completion_time(), 1000);
    batch.add(PrintItem::new(Dimensions(10, 10, 10), 0, 70, family("F1", "PLA")));
    batch.add(PrintItem::new(Dimensions(10, 10, 10), 0, 50, family("F1", "PLA")));
    assert_eq!(batch.print_time, 70);
    assert_eq!(batch.est_completion_time(), 1070);
}

#[test]
fn batch_remove_recomputes_duration() {
    let mut batch = Batch::new(Dimensions(300, 300, 300), 0);
    batch.add(PrintItem::new(Dimensions(10, 10, 10), 0, 70, family("F1", "PLA")));
    batch.add(PrintItem::new(Dimensions(10, 10, 10), 0, 50, family("F1", "PLA")));
    assert_eq!(batch.remove(0), Ok(()));
    assert_eq!(batch.print_time, 50);
    assert_eq!(batch.remove(1), Err(ScheduleError::IndexOutOfRange));
    assert_eq!(batch.remove(0), Ok(()));
    assert_eq!(batch.print_time, 0);
}

#[test]
fn machine_starts_with_one_empty_batch() {
    let machine = Machine::with_name(Dimensions(300, 200, 400), String::from("left"));
    assert_eq!(machine.name, "left");
    assert!(!machine.is_running);
    assert_eq!(machine.schedule.len(), 1);
    assert_eq!(machine.schedule[0].items.len(), 0);
    assert_eq!(machine.schedule[0].capacity, Dimensions(300, 200, 400));
}

#[test]
fn admitting_no_jobs_leaves_one_empty_batch_per_machine() {
    let mut farm = Farm::new();
    farm.add_machine(Machine::new(Dimensions(300, 200, 400)));
    farm.add_machine(Machine::new(Dimensions(100, 150, 350)));
    for machine in &farm.machines {
        assert_eq!(machine.schedule.len(), 1);
        assert_eq!(machine.schedule[0].items.len(), 0);
    }
}

#[test]
fn scenario_a_job_lands_in_initial_batch() {
    let mut farm = Farm::new();
    farm.add_machine(Machine::new(Dimensions(300, 200, 400)));
    let job = PrintItem::new(Dimensions(200, 100, 50), 0, 70, family("F1", "PLA"));
    assert_eq!(farm.add_job(job), Ok(()));
    let batch = &farm.machines[0].schedule[0];
    assert_eq!(farm.machines[0].schedule.len(), 1);
    assert_eq!(batch.items.len(), 1);
    assert_eq!(batch.print_time, 70);
    assert_eq!(batch.est_completion_time(), batch.start_time + 70);
    // The first admitted job fixes the batch's family, name included.
    assert_eq!(batch.family.name, "F1");
}

#[test]
fn scenario_b_capacity_overflow_opens_new_batch() {
    let mut farm = Farm::new();
    farm.add_machine(Machine::new(Dimensions(150, 150, 150)));
    assert_eq!(
        farm.add_job(PrintItem::new(Dimensions(100, 100, 100), 0, 60, family("F1", "PLA"))),
        Ok(()),
    );
    // Headroom is now (50, 50, 50): a compatible (100, 100, 100) job cannot
    // join the open batch and a new batch is opened behind it.
    assert_eq!(
        farm.add_job(PrintItem::new(Dimensions(100, 100, 100), 0, 40, family("F1", "PLA"))),
        Ok(()),
    );
    let machine = &farm.machines[0];
    assert_eq!(machine.schedule.len(), 2);
    assert_eq!(machine.schedule[0].items.len(), 1);
    assert_eq!(machine.schedule[1].items.len(), 1);
    assert_eq!(machine.schedule[1].start_time, machine.schedule[0].est_completion_time());
}

#[test]
fn scenario_c_too_large_job_is_rejected_without_mutation() {
    let mut farm = Farm::new();
    farm.add_machine(Machine::new(Dimensions(300, 200, 400)));
    let job = PrintItem::new(Dimensions(1000, 1000, 1000), 0, 70, family("F1", "PLA"));
    assert_eq!(farm.add_job(job), Err(ScheduleError::JobTooLarge));
    assert_eq!(farm.machines.len(), 1);
    assert_eq!(farm.machines[0].schedule.len(), 1);
    assert_eq!(farm.machines[0].schedule[0].items.len(), 0);
}

#[test]
fn scenario_d_first_fit_prefers_the_earlier_machine() {
    let mut farm = Farm::new();
    farm.add_machine(Machine::new(Dimensions(300, 200, 400)));
    farm.add_machine(Machine::new(Dimensions(300, 200, 400)));
    assert_eq!(
        farm.add_job(PrintItem::new(Dimensions(50, 50, 50), 0, 30, family("F1", "PLA"))),
        Ok(()),
    );
    // Machine 1 now holds the sole F1 batch; machine 2 is empty.  A second
    // compatible job that fits must land on machine 1, not machine 2.
    assert_eq!(
        farm.add_job(PrintItem::new(Dimensions(50, 50, 50), 0, 20, family("F1", "PLA"))),
        Ok(()),
    );
    assert_eq!(farm.machines[0].schedule[0].items.len(), 2);
    assert_eq!(farm.machines[1].schedule[0].items.len(), 0);
}

#[test]
fn capacity_invariant_holds_after_admissions() {
    let mut farm = Farm::new();
    farm.add_machine(Machine::new(Dimensions(300, 200, 400)));
    for _ in 0..5 {
        assert_eq!(
            farm.add_job(PrintItem::new(Dimensions(100, 60, 100), 0, 10, family("F1", "PLA"))),
            Ok(()),
        );
    }
    for machine in &farm.machines {
        for batch in &machine.schedule {
            let mut sum = Dimensions(0, 0, 0);
            for item in &batch.items {
                sum = sum.add(item.dims);
            }
            assert!(sum.fits(batch.capacity));
        }
    }
}

#[test]
fn batch_families_stay_pairwise_compatible() {
    let mut farm = Farm::new();
    farm.add_machine(Machine::new(Dimensions(300, 200, 400)));
    assert_eq!(
        farm.add_job(PrintItem::new(Dimensions(50, 50, 50), 0, 10, family("F1", "PLA"))),
        Ok(()),
    );
    assert_eq!(
        farm.add_job(PrintItem::new(Dimensions(50, 50, 50), 0, 20, family("F2", "ABS"))),
        Ok(()),
    );
    assert_eq!(
        farm.add_job(PrintItem::new(Dimensions(50, 50, 50), 0, 30, family("F3", "PLA"))),
        Ok(()),
    );
    for machine in &farm.machines {
        for batch in &machine.schedule {
            for a in &batch.items {
                for b in &batch.items {
                    assert!(a.family.compatible(&b.family));
                }
            }
        }
    }
}

#[test]
fn queue_stays_completion_ordered() {
    let mut farm = Farm::new();
    farm.add_machine(Machine::new(Dimensions(100, 100, 100)));
    // Each job fills the machine, so each admission opens a new batch.
    for duration in [30u64, 20, 10] {
        assert_eq!(
            farm.add_job(PrintItem::new(
                Dimensions(100, 100, 100),
                0,
                duration,
                family("F1", "PLA"),
            )),
            Ok(()),
        );
    }
    let machine = &farm.machines[0];
    assert_eq!(machine.schedule.len(), 3);
    for i in 1..machine.schedule.len() {
        assert_eq!(
            machine.schedule[i].start_time,
            machine.schedule[i - 1].start_time + machine.schedule[i - 1].print_time,
        );
    }
}

#[test]
fn admitting_into_an_earlier_batch_retimes_the_queue() {
    let mut farm = Farm::new();
    farm.add_machine(Machine::new(Dimensions(100, 100, 100)));
    // First two jobs open two full batches; the third, smaller and slower,
    // joins the first batch and pushes the second batch's start time back.
    assert_eq!(
        farm.add_job(PrintItem::new(Dimensions(80, 80, 80), 0, 10, family("F1", "PLA"))),
        Ok(()),
    );
    assert_eq!(
        farm.add_job(PrintItem::new(Dimensions(80, 80, 80), 0, 10, family("F1", "PLA"))),
        Ok(()),
    );
    assert_eq!(
        farm.add_job(PrintItem::new(Dimensions(20, 20, 20), 0, 99, family("F1", "PLA"))),
        Ok(()),
    );
    let machine = &farm.machines[0];
    assert_eq!(machine.schedule.len(), 2);
    assert_eq!(machine.schedule[0].items.len(), 2);
    assert_eq!(machine.schedule[0].print_time, 99);
    assert_eq!(machine.schedule[1].start_time, machine.schedule[0].est_completion_time());
}

#[test]
fn earliest_completion_policy_picks_the_shorter_queue() {
    let mut farm = Farm::with_policy(NewBatchPolicy::EarliestCompletion);
    farm.add_machine(Machine::new(Dimensions(100, 100, 100)));
    farm.add_machine(Machine::new(Dimensions(100, 100, 100)));
    // One machine-filling job lands on each machine in farm order.
    assert_eq!(
        farm.add_job(PrintItem::new(Dimensions(100, 100, 100), 0, 1_000_000, family("A", "PLA"))),
        Ok(()),
    );
    assert_eq!(
        farm.add_job(PrintItem::new(Dimensions(100, 100, 100), 0, 10, family("A", "PLA"))),
        Ok(()),
    );
    // Both open batches are full, so a new batch must open — on machine 2,
    // whose queue ends about a million milliseconds earlier.
    assert_eq!(
        farm.add_job(PrintItem::new(Dimensions(10, 10, 10), 0, 5, family("B", "ABS"))),
        Ok(()),
    );
    assert_eq!(farm.machines[0].schedule.len(), 1);
    assert_eq!(farm.machines[1].schedule.len(), 2);
    assert_eq!(farm.machines[1].schedule[1].items.len(), 1);
    assert_eq!(
        farm.machines[1].schedule[1].start_time,
        farm.machines[1].schedule[0].est_completion_time(),
    );
}

#[test]
fn remove_machine_reports_invalid_position() {
    let mut farm = Farm::new();
    farm.add_machine(Machine::new(Dimensions(300, 200, 400)));
    assert_eq!(farm.remove_machine(1), Err(ScheduleError::IndexOutOfRange));
    assert_eq!(farm.remove_machine(0), Ok(()));
    assert_eq!(farm.machines.len(), 0);
    assert_eq!(farm.remove_machine(0), Err(ScheduleError::IndexOutOfRange));
}

#[test]
fn remove_job_by_locator_and_out_of_range() {
    let mut farm = Farm::new();
    farm.add_machine(Machine::new(Dimensions(300, 200, 400)));
    assert_eq!(
        farm.add_job(PrintItem::new(Dimensions(50, 50, 50), 0, 70, family("F1", "PLA"))),
        Ok(()),
    );
    assert_eq!(farm.remove_job(0, 0, 1), Err(ScheduleError::IndexOutOfRange));
    assert_eq!(farm.remove_job(0, 1, 0), Err(ScheduleError::IndexOutOfRange));
    assert_eq!(farm.remove_job(1, 0, 0), Err(ScheduleError::IndexOutOfRange));
    assert_eq!(farm.machines[0].schedule[0].items.len(), 1);
    assert_eq!(farm.remove_job(0, 0, 0), Ok(()));
    assert_eq!(farm.machines[0].schedule[0].items.len(), 0);
    assert_eq!(farm.machines[0].schedule[0].print_time, 0);
}

#[test]
fn due_date_is_at_least_the_offset() {
    let job = PrintItem::new(Dimensions(1, 1, 1), 987_654_321, 5, family("F1", "PLA"));
    assert!(job.due_date >= 987_654_321);
}

#[test]
fn model_with_dims_keeps_the_bounding_box() {
    let model = print_farm::model::Model::with_dims(Dimensions(12, 34, 56));
    assert_eq!(model.dims, Some(Dimensions(12, 34, 56)));
    assert!(model.name.is_none());
}
