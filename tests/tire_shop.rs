use dynprops::property::{Initializer, Property};
use dynprops::store::PropertyData;
use dynprops::subject::Subject;

/// A kind of tire.
pub struct TireKind {
    pub diameter: f32,
    pub min_pressure: f32,
    pub max_pressure: f32,
    pub cost: f32,
}

/// A specific tire on a vehicle, with its measurements and its notes as dynamic properties.
pub struct Tire {
    pub kind: &'static TireKind,
    measurements: PropertyData<f32>,
    notes: PropertyData<&'static str>,
}

pub struct Car {
    pub front_left_tire: Tire,
    pub front_right_tire: Tire,
    pub back_left_tire: Tire,
    pub back_right_tire: Tire,
}

impl Car {
    fn tires(&self) -> Vec<&Tire> {
        vec![
            &self.front_left_tire,
            &self.front_right_tire,
            &self.back_left_tire,
            &self.back_right_tire,
        ]
    }
}

pub static PASSENGER_33_TIRE: TireKind = TireKind {
    diameter: 33.0,
    min_pressure: 30.0,
    max_pressure: 35.0,
    cost: 160.0,
};

fn new_tire(subject: &Subject) -> Tire {
    Tire {
        kind: &PASSENGER_33_TIRE,
        measurements: PropertyData::new(subject),
        notes: PropertyData::new(subject),
    }
}

fn new_passenger_car(subject: &Subject) -> Car {
    Car {
        front_left_tire: new_tire(subject),
        front_right_tire: new_tire(subject),
        back_left_tire: new_tire(subject),
        back_right_tire: new_tire(subject),
    }
}

/// The set of observations taken during a tire inspection.
struct TireCheck {
    pressure: Property<f32>,
    tread_depth: Property<f32>,
    notes: Property<&'static str>,
}

fn measured(prop: &Property<f32>, tire: &Tire) -> f32 {
    prop.try_get(&tire.measurements).unwrap().copied().unwrap_or_default()
}

/// Gets the estimated cost needed to perform tire-related services on a vehicle.
fn get_service_cost(vehicle: &Car, check: &TireCheck) -> f32 {
    let mut cost = 0.0;
    let mut need_inflation = false;
    for tire in vehicle.tires() {
        let kind = tire.kind;
        let pressure = measured(&check.pressure, tire);
        let tread_depth = measured(&check.tread_depth, tire);
        if tread_depth < 4.0 {
            cost += kind.cost;
        } else if pressure < kind.min_pressure {
            need_inflation = true;
            cost += 0.25;
        } else if pressure > kind.max_pressure {
            cost += 0.25;
        }
    }
    if need_inflation {
        cost += 2.0;
    }
    cost
}

#[test]
fn test_car() {
    // Create car
    let mut subject = Subject::new(1);
    let mut car = new_passenger_car(&subject);

    // Take measurements
    let pressure = Property::<f32>::new(&mut subject, Initializer::Default);
    let tread_depth = Property::<f32>::new(&mut subject, Initializer::Default);
    let notes = Property::<&'static str>::new(&mut subject, Initializer::Default);
    pressure.set(&mut car.front_left_tire.measurements, 32.1).unwrap();
    pressure.set(&mut car.front_right_tire.measurements, 32.3).unwrap();
    pressure.set(&mut car.back_left_tire.measurements, 28.2).unwrap();
    pressure.set(&mut car.back_right_tire.measurements, 29.1).unwrap();
    tread_depth.set(&mut car.front_left_tire.measurements, 4.7).unwrap();
    tread_depth.set(&mut car.front_right_tire.measurements, 4.3).unwrap();
    tread_depth.set(&mut car.back_left_tire.measurements, 3.8).unwrap();
    tread_depth.set(&mut car.back_right_tire.measurements, 4.5).unwrap();
    notes.set(&mut car.back_left_tire.notes, "Possible misalignment").unwrap();
    let check = TireCheck {
        pressure,
        tread_depth,
        notes,
    };

    // Compute service cost
    assert_eq!(get_service_cost(&car, &check), 162.25);

    // Verify notes
    assert_eq!(*check.notes.get(&mut car.back_right_tire.notes).unwrap(), "");
    assert_eq!(
        *check.notes.get(&mut car.back_left_tire.notes).unwrap(),
        "Possible misalignment"
    );
}
