mod fixed;
mod utils;
mod vec3;
mod ray;
mod hittable;
mod material;
mod sphere;
mod hittable_list;
mod camera;
mod colour;
mod image;
mod render;

pub use fixed::SCALE;
pub use utils::{clamp, degrees_to_radians, random_fx, INFINITY};
pub use vec3::{Vec3, Point3, Colour, dot, cross, unit_vector, reflect, refract};
pub use ray::Ray;
pub use hittable::HitRecord;
pub use material::{Material, Lambertian, Metal, Dielectric};
pub use sphere::Sphere;
pub use hittable_list::HittableList;
pub use camera::{Camera, vfov_usable};
pub use colour::{rescale_colour, rescale_channel};
pub use image::{Image, Pixel};
pub use render::{ray_colour, calculate_pixel_colour, create_image};
